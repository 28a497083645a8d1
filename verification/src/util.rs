//! Paths given relative to the home directory.
use crate::text::{chars_of, starts_with};
use vstd::prelude::*;

verus! {

/// `~/rest` becomes `home/rest`; any other path is kept.
pub open spec fn expanded(path: Seq<char>, home: Seq<char>) -> Seq<char> {
    if starts_with(path, seq!['~', '/']) {
        home + seq!['/'] + path.skip(2)
    } else {
        path
    }
}

/// Expands a leading `~/` with the home directory `home`.
pub fn expand_home(path: &str, home: &str) -> (r: String)
    ensures
        r@ == expanded(path@, home@),
{
    let v = chars_of(path);
    let tilde = v.len() >= 2 && v[0] == '~' && v[1] == '/';
    proof {
        if v.len() >= 2 {
            let t = path@.take(2);
            assert(t[0] == path@[0] && t[1] == path@[1]);
            assert(seq!['~', '/'][0] == '~' && seq!['~', '/'][1] == '/');
            if tilde {
                assert(t =~= seq!['~', '/']);
            }
        }
    }
    if tilde {
        let mut s = String::from_str(home);
        let mut tail: Vec<char> = Vec::new();
        tail.push('/');
        crate::text::push_range(&mut tail, &v, 2, v.len());
        let t = crate::text::string_of(&tail);
        s.append(t.as_str());
        assert(tail@ =~= seq!['/'] + path@.skip(2));
        s
    } else {
        String::from_str(path)
    }
}

} // verus!
