//! What the library takes from other crates, with the contracts it relies on.
use nix::sched::CpuSet;
use regex::Regex;
use serde_json::Value;
use vstd::prelude::*;

verus! {

/// A compiled regular expression.
#[verifier::external_type_specification]
#[verifier::external_body]
pub struct ExRegex(regex::Regex);

/// Why a pattern could not be compiled.
#[verifier::external_type_specification]
#[verifier::external_body]
pub struct ExRegexError(regex::Error);

/// A JSON value as it stands in a preset.
#[verifier::external_type_specification]
#[verifier::external_body]
pub struct ExJsonValue(serde_json::Value);

/// A mask of processors, as the kernel's affinity call takes it.
#[verifier::external_type_specification]
#[verifier::external_body]
pub struct ExCpuSet(nix::sched::CpuSet);

/// Why a mask operation failed.
#[verifier::external_type_specification]
#[verifier::external_body]
pub struct ExErrno(nix::errno::Errno);

/// The pattern text a compiled expression was made from.
pub uninterp spec fn regex_source(re: Regex) -> Seq<char>;

/// Whether a pattern compiles.
pub uninterp spec fn regex_valid(pattern: Seq<char>) -> bool;

/// Whether a pattern matches somewhere in a text.
pub uninterp spec fn regex_matches(pattern: Seq<char>, text: Seq<char>) -> bool;

/// `Regex::new`: compiles exactly the valid patterns, and the compiled
/// expression keeps the pattern it was made from.
pub assume_specification[ regex::Regex::new ](re: &str) -> (r: Result<regex::Regex, regex::Error>)
    ensures
        r is Ok <==> regex_valid(re@),
        r matches Ok(c) ==> regex_source(c) == re@,
;

/// `Regex::is_match`: whether the expression's pattern matches anywhere in the
/// haystack.
pub assume_specification[ regex::Regex::is_match ](re: &regex::Regex, haystack: &str) -> (b: bool)
    ensures
        b == regex_matches(regex_source(*re), haystack@),
;

/// The characters of a JSON string, `None` for any other JSON value.
pub uninterp spec fn json_string(v: Value) -> Option<Seq<char>>;

/// The compact JSON rendering of a value.
pub uninterp spec fn json_text(v: Value) -> Seq<char>;

/// `Value::as_str`: the contents of a JSON string, `None` for anything else.
pub assume_specification[ serde_json::Value::as_str ](v: &serde_json::Value) -> (r: Option<&str>)
    ensures
        r is Some <==> json_string(*v) is Some,
        r matches Some(s) ==> json_string(*v) == Some(s@),
;

/// `Value::to_string`, by way of its `Display`: the compact JSON rendering.
#[verifier::external_body]
pub(crate) fn render_json(v: &Value) -> (r: String)
    ensures
        r@ == json_text(*v),
{
    v.to_string()
}

/// The processors in a mask.
pub uninterp spec fn cpu_set_members(s: CpuSet) -> Set<nat>;

/// The number of processors a mask has room for.
pub uninterp spec fn cpu_set_limit(s: CpuSet) -> nat;

/// `CpuSet::new`: an empty mask. How many processors it has room for depends on the
/// platform, but it is never less than 32.
pub assume_specification[ nix::sched::CpuSet::new ]() -> (r: nix::sched::CpuSet)
    ensures
        cpu_set_members(r) == Set::<nat>::empty(),
        cpu_set_limit(r) >= 32,
;

/// `CpuSet::set`: adds a processor that the mask has room for; otherwise fails and
/// leaves the mask as it was. The room does not change.
pub assume_specification[ nix::sched::CpuSet::set ](set: &mut nix::sched::CpuSet, field: usize) -> (r: Result<(), nix::errno::Errno>)
    ensures
        cpu_set_limit(*final(set)) == cpu_set_limit(*old(set)),
        r is Ok <==> field < cpu_set_limit(*old(set)),
        r is Ok ==> cpu_set_members(*final(set)) == cpu_set_members(*old(set)).insert(field as nat),
        r is Err ==> *final(set) == *old(set),
;

/// A text in lower case.
pub uninterp spec fn lowercase(s: Seq<char>) -> Seq<char>;

/// A character in lower case, where it is ASCII.
pub open spec fn ascii_lower_char(c: char) -> char {
    if 'A' <= c <= 'Z' {
        (c as u32 + 32) as char
    } else {
        c
    }
}

/// A text of ASCII characters in lower case.
pub open spec fn ascii_lower(s: Seq<char>) -> Seq<char> {
    s.map_values(|c: char| ascii_lower_char(c))
}

/// A text in lower case: by its letters where it is ASCII.
pub open spec fn lowered(s: Seq<char>) -> Seq<char> {
    if vstd::utf8::is_ascii_chars(s) {
        ascii_lower(s)
    } else {
        lowercase(s)
    }
}

/// `str::to_lowercase`: the text in lower case; on ASCII text only the letters `A`
/// to `Z` change.
pub assume_specification[ str::to_lowercase ](s: &str) -> (r: String)
    ensures
        r@ == lowercase(s@),
        vstd::utf8::is_ascii_chars(s@) ==> r@ == ascii_lower(s@),
;

/// In lower case a text of ASCII characters keeps its length and all characters but the
/// letters `A` to `Z`, which become those 32 places on; doing it again changes nothing.
pub proof fn law_lower_case(s: Seq<char>, i: int)
    requires
        vstd::utf8::is_ascii_chars(s),
        0 <= i < s.len(),
    ensures
        lowered(s).len() == s.len(),
        65 <= s[i] as u32 <= 90 ==> lowered(s)[i] as u32 == s[i] as u32 + 32,
        !(65 <= s[i] as u32 <= 90) ==> lowered(s)[i] == s[i],
        ascii_lower(lowered(s)) == lowered(s),
{
    assert(ascii_lower(ascii_lower(s)) == ascii_lower(s));
}

} // verus!
