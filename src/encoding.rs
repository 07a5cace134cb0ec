use vstd::prelude::*;

verus! {

/// Unpadded base32 text (RFC 4648 alphabet) of the UTF-8 bytes of `t`.
pub uninterp spec fn base32_of_text(t: Seq<char>) -> Seq<char>;

/// A symbol of the base32 alphabet.
pub open spec fn is_base32_char(c: char) -> bool {
    ('A' <= c && c <= 'Z') || ('2' <= c && c <= '7')
}

/// Relies on `data_encoding::BASE32_NOPAD.encode`: the unpadded base32 text of
/// the UTF-8 bytes of `t`, written with the symbols `A`-`Z` and `2`-`7`.
#[verifier::external_body]
pub(crate) fn base32_encode(t: &str) -> (r: String)
    ensures
        r@ == base32_of_text(t@),
        forall|i: int| 0 <= i < r@.len() ==> is_base32_char(#[trigger] r@[i]),
{
    data_encoding::BASE32_NOPAD.encode(t.as_bytes())
}

/// Relies on `data_encoding::BASE32_NOPAD.decode`, which is documented as
/// correct (decoding an encoding gives back its input) and canonical (it
/// rejects every text that is not an encoding), and on `String::from_utf8`.
#[verifier::external_body]
pub(crate) fn base32_decode(s: &str) -> (r: Option<String>)
    ensures
        r matches Some(t) ==> base32_of_text(t@) == s@,
        r matches Some(t) ==> forall|u: Seq<char>| #[trigger] base32_of_text(u) == s@ ==> u == t@,
        r is None ==> forall|u: Seq<char>| #[trigger] base32_of_text(u) != s@,
{
    data_encoding::BASE32_NOPAD.decode(s.as_bytes()).ok().and_then(|b| String::from_utf8(b).ok())
}

/// The message of the error that parsing `t` as YAML gives, if it does not parse.
pub uninterp spec fn yaml_error_of(t: Seq<char>) -> Option<Seq<char>>;

/// Relies on `serde_yaml::from_str` into a `serde_yaml::Value`: either the text
/// parses as one YAML document, or the message of the error that says why not.
/// The outcome depends on the text alone.
#[verifier::external_body]
pub(crate) fn yaml_error(t: &str) -> (r: Option<String>)
    ensures
        r is None <==> yaml_error_of(t@) is None,
        r matches Some(m) ==> yaml_error_of(t@) == Some(m@),
{
    serde_yaml::from_str::<serde_yaml::Value>(t).err().map(|e| e.to_string())
}

} // verus!
