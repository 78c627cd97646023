use vstd::prelude::*;

verus! {

/// The JSON text that serde_json writes for a list of numbers, or `None`
/// where it reports an error.
pub uninterp spec fn json_of_nums(v: Seq<u32>) -> Option<Seq<char>>;

/// The list of numbers that serde_json reads from a JSON text, or `None`
/// where the text is not such a list.
pub uninterp spec fn nums_of_json(s: Seq<char>) -> Option<Seq<u32>>;

/// The JSON text that serde_json writes for a list of strings, or `None`
/// where it reports an error.
pub uninterp spec fn json_of_strs(v: Seq<Seq<char>>) -> Option<Seq<char>>;

/// The list of strings that serde_json reads from a JSON text, or `None`
/// where the text is not such a list.
pub uninterp spec fn strs_of_json(s: Seq<char>) -> Option<Seq<Seq<char>>>;

pub open spec fn strs_view(v: Seq<String>) -> Seq<Seq<char>> {
    v.map_values(|x: String| x@)
}

/// Relies on serde_json::to_string on a `Vec<u32>`: the text, or the error,
/// depends on the numbers alone.
#[verifier::external_body]
pub(crate) fn encode_nums(v: &Vec<u32>) -> (r: Option<String>)
    ensures
        match r {
            Some(t) => json_of_nums(v@) == Some(t@),
            None => json_of_nums(v@) is None,
        },
{
    serde_json::to_string(v).ok()
}

/// Relies on serde_json::from_str into a `Vec<u32>`: the result depends on
/// the text alone.
#[verifier::external_body]
pub(crate) fn decode_nums(s: &str) -> (r: Option<Vec<u32>>)
    ensures
        match r {
            Some(v) => nums_of_json(s@) == Some(v@),
            None => nums_of_json(s@) is None,
        },
{
    serde_json::from_str::<Vec<u32>>(s).ok()
}

/// Relies on serde_json::to_string on a `Vec<String>`: the text, or the
/// error, depends on the strings alone.
#[verifier::external_body]
pub(crate) fn encode_strs(v: &Vec<String>) -> (r: Option<String>)
    ensures
        match r {
            Some(t) => json_of_strs(strs_view(v@)) == Some(t@),
            None => json_of_strs(strs_view(v@)) is None,
        },
{
    serde_json::to_string(v).ok()
}

/// Relies on serde_json::from_str into a `Vec<String>`: the result depends
/// on the text alone.
#[verifier::external_body]
pub(crate) fn decode_strs(s: &str) -> (r: Option<Vec<String>>)
    ensures
        match r {
            Some(v) => strs_of_json(s@) == Some(strs_view(v@)),
            None => strs_of_json(s@) is None,
        },
{
    serde_json::from_str::<Vec<String>>(s).ok()
}

/// Whether `n` is a Unicode scalar value, that is the code of a `char`.
pub open spec fn is_scalar(n: u32) -> bool {
    n < 0xD800 || (0xE000 <= n && n < 0x110000)
}

/// The code of `c`.
pub open spec fn code(c: char) -> u32 {
    c as u32
}

/// The `char` whose code is `n`, where there is one.
pub open spec fn char_of(n: u32) -> Option<char> {
    if is_scalar(n) {
        Some(choose|c: char| #[trigger] code(c) == n)
    } else {
        None
    }
}

/// Relies on char::from_u32: `Some` exactly for the codes of `char`s, and
/// then the `char` with that code (distinct chars have distinct codes).
#[verifier::external_body]
pub(crate) fn to_char(n: u32) -> (r: Option<char>)
    ensures
        r == char_of(n),
{
    char::from_u32(n)
}

} // verus!
