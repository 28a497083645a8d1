//! Names of the files that hold PDF attachments.
use crate::text::{
    chars_of, ends_with, is_alphanumeric, alphanumeric, push_str, starts_with, starts_with_chars, string_of,
};
use vstd::prelude::*;
use vstd::string::StringSliceAdditionalSpecFns;
use vstd::utf8::{
    decode_utf8, encode_utf8, encode_utf8_decode_utf8, encode_utf8_valid_utf8, is_char_boundary,
};

verus! {

pub open spec fn min_len(n: nat, len: nat) -> nat {
    if n < len {
        n
    } else {
        len
    }
}

/// The characters whose UTF-8 encoding is the first `n` bytes of `s` (all of
/// `s` when it is shorter).
pub open spec fn byte_prefix_of(s: Seq<char>, n: nat) -> Seq<char> {
    decode_utf8(encode_utf8(s).take(min_len(n, encode_utf8(s).len()) as int))
}

/// `&s[..s.len().min(n)]`: the first `n` bytes of `s`, which must end on a
/// character boundary.
pub fn byte_prefix(s: &str, n: usize) -> (r: &str)
    requires
        is_char_boundary(s.spec_bytes(), min_len(n as nat, s.spec_bytes().len()) as int),
    ensures
        r.spec_bytes() == s.spec_bytes().take(min_len(n as nat, s.spec_bytes().len()) as int),
        r@ == byte_prefix_of(s@, n as nat),
{
    let len = s.as_bytes().len();
    let m = if n < len {
        n
    } else {
        len
    };
    proof {
        encode_utf8_valid_utf8(s@);
        assert(m as int == min_len(n as nat, s.spec_bytes().len()) as int);
    }
    let (a, _) = s.split_at(m);
    proof {
        encode_utf8_decode_utf8(a@);
    }
    a
}

/// A file name with every character other than a letter, a digit, `.` or `-`
/// replaced by `_`.
pub open spec fn sanitized(f: Seq<char>) -> Seq<char> {
    f.map_values(|c: char| if alphanumeric(c) || c == '.' || c == '-' { c } else { '_' })
}

/// `Path::join` on Unix: an absolute `name` replaces `dir`; otherwise a `/` is
/// put between them unless `dir` is empty or already ends with one.
pub open spec fn join_path(dir: Seq<char>, name: Seq<char>) -> Seq<char> {
    if starts_with(name, seq!['/']) || dir.len() == 0 {
        name
    } else if ends_with(dir, seq!['/']) {
        dir + name
    } else {
        dir + seq!['/'] + name
    }
}

/// Where the attachment `filename` of message `message_id` is stored in
/// `pdf_dir`: the first 16 bytes of the id, `_`, and the sanitized name.
pub open spec fn attachment_path(pdf_dir: Seq<char>, message_id: Seq<char>, filename: Seq<char>) -> Seq<char> {
    join_path(pdf_dir, byte_prefix_of(message_id, 16) + seq!['_'] + sanitized(filename))
}

/// The directory of archived attachments.
pub open spec fn archive_dir_of(pdf_dir: Seq<char>) -> Seq<char> {
    pdf_dir + "/archives"@
}

fn sanitize(f: &str) -> (r: Vec<char>)
    ensures
        r@ == sanitized(f@),
{
    let v = chars_of(f);
    let mut out: Vec<char> = Vec::new();
    let mut i: usize = 0;
    while i < v.len()
        invariant
            i <= v.len(),
            v@ == f@,
            out@ == sanitized(v@.take(i as int)),
        decreases v.len() - i,
    {
        let c = v[i];
        let keep = is_alphanumeric(c) || c == '.' || c == '-';
        out.push(if keep { c } else { '_' });
        assert(sanitized(v@.take(i + 1)) =~= sanitized(v@.take(i as int)).push(
            if keep { c } else { '_' },
        ));
        i += 1;
    }
    assert(v@.take(v.len() as int) =~= v@);
    out
}

/// Joins a directory and a file name as `Path::join` does on Unix.
pub fn join(dir: &str, name: &Vec<char>) -> (r: String)
    ensures
        r@ == join_path(dir@, name@),
{
    let d = chars_of(dir);
    let absolute = name.len() > 0 && name[0] == '/';
    proof {
        assert(starts_with(name@, seq!['/']) == absolute) by {
            if name.len() > 0 {
                let t = name@.take(1);
                assert(t[0] == name@[0]);
                assert(seq!['/'][0] == '/');
                if absolute {
                    assert(t =~= seq!['/']);
                }
            }
        }
    }
    if absolute || d.len() == 0 {
        return string_of(name);
    }
    let mut out = d;
    let ends = out[out.len() - 1] == '/';
    proof {
        assert(ends_with(dir@, seq!['/']) == ends) by {
            let t = dir@.skip(dir@.len() - 1);
            assert(t[0] == dir@[dir@.len() - 1]);
            assert(seq!['/'][0] == '/');
            if ends {
                assert(t =~= seq!['/']);
            }
        }
    }
    if !ends {
        out.push('/');
    }
    let mut i: usize = 0;
    let ghost base = out@;
    while i < name.len()
        invariant
            i <= name.len(),
            out@ == base + name@.take(i as int),
        decreases name.len() - i,
    {
        out.push(name[i]);
        assert(base + name@.take(i + 1) =~= base + name@.take(i as int) + seq![name@[i as int]]);
        i += 1;
    }
    assert(name@.take(name.len() as int) =~= name@);
    assert(dir@.push('/') =~= dir@ + seq!['/']);
    string_of(&out)
}

/// Path of the file that holds attachment `filename` of message `message_id`
/// under `pdf_dir`. The 16th byte of the id must fall on a character boundary.
pub fn path_for(pdf_dir: &str, message_id: &str, filename: &str) -> (r: String)
    requires
        is_char_boundary(message_id.spec_bytes(), min_len(16, message_id.spec_bytes().len()) as int),
    ensures
        r@ == attachment_path(pdf_dir@, message_id@, filename@),
{
    let prefix = byte_prefix(message_id, 16);
    let mut name: Vec<char> = Vec::new();
    push_str(&mut name, prefix);
    name.push('_');
    let safe = sanitize(filename);
    let ghost before = name@;
    let mut i: usize = 0;
    while i < safe.len()
        invariant
            i <= safe.len(),
            name@ == before + safe@.take(i as int),
        decreases safe.len() - i,
    {
        name.push(safe[i]);
        assert(before + safe@.take(i + 1) =~= before + safe@.take(i as int) + seq![safe@[i as int]]);
        i += 1;
    }
    assert(safe@.take(safe.len() as int) =~= safe@);
    assert(before =~= prefix@ + seq!['_']);
    join(pdf_dir, &name)
}

/// The directory into which attachments are archived.
pub fn archive_dir(pdf_dir: &str) -> (r: String)
    ensures
        r@ == archive_dir_of(pdf_dir@),
{
    let mut s = String::from_str(pdf_dir);
    s.append("/archives");
    s
}

/// The indices, in order, of the entries among the first `k` of `names` that
/// belong to the message `message_id`: those whose name starts with the id's
/// first 16 bytes.
pub open spec fn files_upto(names: Seq<String>, message_id: Seq<char>, k: nat) -> Seq<int>
    decreases k,
{
    if k == 0 {
        Seq::empty()
    } else {
        let prev = files_upto(names, message_id, (k - 1) as nat);
        if starts_with(names[k - 1]@, byte_prefix_of(message_id, 16)) {
            prev.push(k - 1)
        } else {
            prev
        }
    }
}

/// The indices of the entries of `names` that belong to `message_id`.
pub open spec fn files_of(names: Seq<String>, message_id: Seq<char>) -> Seq<int> {
    files_upto(names, message_id, names.len())
}

/// Which of the file names of the PDF directory belong to a message: the
/// indices, in order, of those that start with the id's first 16 bytes. They
/// are the files to archive with the message, and the first is the one to
/// open when its recorded path is gone.
pub fn files_of_message(names: &Vec<String>, message_id: &str) -> (r: Vec<usize>)
    requires
        is_char_boundary(message_id.spec_bytes(), min_len(16, message_id.spec_bytes().len()) as int),
    ensures
        r@.len() == files_of(names@, message_id@).len(),
        forall|j: int| 0 <= j < r@.len() ==> r@[j] as int == #[trigger] files_of(names@, message_id@)[j],
{
    let prefix = chars_of(byte_prefix(message_id, 16));
    let mut r: Vec<usize> = Vec::new();
    let mut k: usize = 0;
    while k < names.len()
        invariant
            k <= names.len(),
            prefix@ == byte_prefix_of(message_id@, 16),
            r@.len() == files_upto(names@, message_id@, k as nat).len(),
            forall|j: int| 0 <= j < r@.len() ==> r@[j] as int == #[trigger] files_upto(names@, message_id@, k as nat)[j],
        decreases names.len() - k,
    {
        let name = chars_of(names[k].as_str());
        if starts_with_chars(&name, &prefix) {
            r.push(k);
        }
        k += 1;
    }
    r
}

/// A stored attachment's file name is the one built from the message id and
/// the sanitized attachment name, so it starts with the id's first 16 bytes:
/// the prefix under which the archive and the viewer look for it.
pub proof fn stored_file_named_after_message(pdf_dir: Seq<char>, message_id: Seq<char>, filename: Seq<char>)
    ensures
        ends_with(
            attachment_path(pdf_dir, message_id, filename),
            byte_prefix_of(message_id, 16) + seq!['_'] + sanitized(filename),
        ),
{
    let name = byte_prefix_of(message_id, 16) + seq!['_'] + sanitized(filename);
    let p = attachment_path(pdf_dir, message_id, filename);
    if starts_with(name, seq!['/']) || pdf_dir.len() == 0 {
        assert(p.skip(p.len() - name.len()) =~= name);
    } else if ends_with(pdf_dir, seq!['/']) {
        assert(p.skip(p.len() - name.len()) =~= name);
    } else {
        assert(p.skip(p.len() - name.len()) =~= name);
    }
}

} // verus!
