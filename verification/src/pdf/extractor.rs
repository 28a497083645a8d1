//! Reading an amount out of the text of a PDF invoice.
use crate::codec::{base64_decode, base64_url_safe, regex_capture, regex_group1, regex_valid};
use crate::text::{chars_of, string_of, trim, trim_ws};
use vstd::prelude::*;

verus! {

/// An amount introduced by a label such as "Total" or "Net à payer", followed
/// by euros; group 1 is the number.
pub const LABELLED_AMOUNT: &'static str = r"(?i)(?:total|montant|amount|ttc|net\s+à\s+payer)[^\d]{0,20}([\d\s]+[.,]\d{2})\s*(?:€|eur)";

/// Any amount followed by euros; group 1 is the number.
pub const ANY_EURO_AMOUNT: &'static str = r"([\d\s]{1,10}[.,]\d{2})\s*(?:€|EUR)";

/// How a captured number is shown: trimmed, its spaces made narrow
/// no-break spaces (U+202F), and followed by " €".
pub open spec fn amount_display(g: Seq<char>) -> Seq<char> {
    trim(g).map_values(|c: char| if c == ' ' { '\u{202F}' } else { c }) + seq![' ', '€']
}

/// The amount read out of `text`: the labelled amount if there is one,
/// otherwise the first amount in euros.
pub open spec fn extracted_amount(text: Seq<char>) -> Option<Seq<char>> {
    if !regex_valid(LABELLED_AMOUNT@) {
        None
    } else {
        match regex_group1(LABELLED_AMOUNT@, text) {
            Some(g) => Some(amount_display(g)),
            None => if !regex_valid(ANY_EURO_AMOUNT@) {
                None
            } else {
                match regex_group1(ANY_EURO_AMOUNT@, text) {
                    Some(g) => Some(amount_display(g)),
                    None => None,
                }
            },
        }
    }
}

fn display_amount(g: &String) -> (r: String)
    ensures
        r@ == amount_display(g@),
{
    let v = chars_of(g.as_str());
    let t = trim_ws(&v);
    let mut out: Vec<char> = Vec::new();
    let mut i: usize = 0;
    while i < t.len()
        invariant
            i <= t.len(),
            out@ == t@.take(i as int).map_values(|c: char| if c == ' ' { '\u{202F}' } else { c }),
        decreases t.len() - i,
    {
        let c = t[i];
        out.push(if c == ' ' { '\u{202F}' } else { c });
        assert(t@.take(i + 1).map_values(|c: char| if c == ' ' { '\u{202F}' } else { c }) =~= t@.take(
            i as int,
        ).map_values(|c: char| if c == ' ' { '\u{202F}' } else { c }).push(
            if c == ' ' { '\u{202F}' } else { c },
        ));
        i += 1;
    }
    assert(t@.take(t.len() as int) =~= t@);
    out.push(' ');
    out.push('€');
    assert(out@ =~= amount_display(g@));
    string_of(&out)
}

/// The amount of an invoice read out of its text, formatted for display.
pub fn extract_amount(text: &str) -> (r: Option<String>)
    ensures
        match r {
            Some(a) => extracted_amount(text@) == Some(a@),
            None => extracted_amount(text@) is None,
        },
{
    match regex_capture(LABELLED_AMOUNT, text) {
        Err(_) => return None,
        Ok(Some(g)) => return Some(display_amount(&g)),
        Ok(None) => {},
    }
    match regex_capture(ANY_EURO_AMOUNT, text) {
        Err(_) => None,
        Ok(Some(g)) => Some(display_amount(&g)),
        Ok(None) => None,
    }
}

/// The bytes of an attachment sent base64-encoded (URL-safe alphabet), or
/// `None` when the data is not valid base64.
pub fn decode_attachment(data: &str) -> (r: Option<Vec<u8>>)
    ensures
        match r {
            Some(v) => base64_url_safe(data@) == Some(v@),
            None => base64_url_safe(data@) is None,
        },
{
    match base64_decode(data) {
        Ok(v) => Some(v),
        Err(_) => None,
    }
}

/// Which amount is read out of a text. When the labelled pattern ("Total",
/// "Montant", "TTC", ... then a number and euros) matches, the amount is the
/// display of that match's number, whatever euro amounts come before it.
/// Only when it does not match is the first euro amount anywhere taken; and
/// when neither matches there is no amount.
pub proof fn labelled_amount_comes_first(text: Seq<char>)
    ensures
        regex_valid(LABELLED_AMOUNT@) ==> (regex_group1(LABELLED_AMOUNT@, text) matches Some(g)
            ==> extracted_amount(text) == Some(amount_display(g))),
        regex_valid(LABELLED_AMOUNT@) && regex_group1(LABELLED_AMOUNT@, text) is None && regex_valid(
            ANY_EURO_AMOUNT@,
        ) ==> (regex_group1(ANY_EURO_AMOUNT@, text) matches Some(g) ==> extracted_amount(text)
            == Some(amount_display(g))),
        regex_valid(LABELLED_AMOUNT@) && regex_valid(ANY_EURO_AMOUNT@) && regex_group1(
            LABELLED_AMOUNT@,
            text,
        ) is None && regex_group1(ANY_EURO_AMOUNT@, text) is None ==> extracted_amount(text) is None,
{
}

/// How a captured number is shown: the number without the white space
/// around it, each inner space a narrow no-break space, then " €"; nothing
/// else of it changes.
pub proof fn amount_display_shape(g: Seq<char>)
    ensures
        amount_display(g).len() == trim(g).len() + 2,
        amount_display(g)[trim(g).len() as int] == ' ',
        amount_display(g)[trim(g).len() as int + 1] == '€',
        forall|i: int|
            0 <= i < trim(g).len() ==> #[trigger] amount_display(g)[i] == if trim(g)[i] == ' ' {
                '\u{202F}'
            } else {
                trim(g)[i]
            },
{
}

} // verus!
