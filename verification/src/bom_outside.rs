//! What the bill-of-materials helpers take from the standard library and from
//! other crates, and what is believed of it.

use vstd::prelude::*;

verus! {

/// The SHA-256 digest of `data`.
pub uninterp spec fn sha256_of(data: Seq<u8>) -> Seq<u8>;

/// The groups of the leftmost match of the regular expression `pattern` in
/// `text`, the whole match first, each group with the text it matched if it
/// took part in the match; none where the text has no match or the pattern
/// is no regular expression.
pub uninterp spec fn captures_of(pattern: Seq<char>, text: Seq<char>) -> Option<
    Seq<Option<Seq<char>>>,
>;

/// The lines of `text`, without their line ends.
pub uninterp spec fn lines_of(text: Seq<char>) -> Seq<Seq<char>>;

/// `text` without the white space at its start and at its end.
pub uninterp spec fn trimmed(text: Seq<char>) -> Seq<char>;

/// `text` without the repetitions of `pattern` at its end: as long as the
/// text ends with the pattern, the pattern is taken from its end.
pub open spec fn trimmed_end(text: Seq<char>, pattern: Seq<char>) -> Seq<char>
    decreases text.len(),
{
    if 0 < pattern.len() <= text.len() && text.subrange(
        text.len() - pattern.len(),
        text.len() as int,
    ) == pattern {
        trimmed_end(text.subrange(0, text.len() - pattern.len()), pattern)
    } else {
        text
    }
}

/// `bytes` read as UTF-8, each ill-formed part replaced by U+FFFD.
pub uninterp spec fn utf8_lossy(bytes: Seq<u8>) -> Seq<char>;

/// Whether `path` is absolute, as the target's path syntax has it.
pub uninterp spec fn path_is_absolute(path: Seq<char>) -> bool;

/// `path` put behind `base`, as the target's path syntax has it.
pub uninterp spec fn path_joined(base: Seq<char>, path: Seq<char>) -> Seq<char>;

/// `path` without its last component, if it has one.
pub uninterp spec fn path_parent(path: Seq<char>) -> Option<Seq<char>>;

/// The last component of `path`, if it is the name of a file or directory.
pub uninterp spec fn path_file_name(path: Seq<char>) -> Option<Seq<char>>;

/// `path` without the components of `prefix` that it begins with, if it
/// begins with them all.
pub uninterp spec fn path_stripped(path: Seq<char>, prefix: Seq<char>) -> Option<Seq<char>>;

/// No `$` of `path` stands in front of a character that is not of the ASCII
/// set.
pub open spec fn plain_variables(path: Seq<char>) -> bool {
    forall|i: int|
        #![trigger path[i]]
        0 <= i < path.len() - 1 && path[i] == '$' ==> (path[i + 1] as u32) < 128
}

/// The upper-case hexadecimal digit of a number below sixteen.
pub open spec fn hex_digit(n: int) -> char {
    if n < 10 {
        (48 + n) as char
    } else {
        (55 + n) as char
    }
}

/// The base-16 encoding of `bytes`: two upper-case hexadecimal digits for
/// each byte, the high four bits first.
pub open spec fn hex_upper(bytes: Seq<u8>) -> Seq<char> {
    Seq::new(
        2 * bytes.len(),
        |i: int|
            if i % 2 == 0 {
                hex_digit(bytes[i / 2] as int / 16)
            } else {
                hex_digit(bytes[i / 2] as int % 16)
            },
    )
}

/// The views of the strings of `v`, in their order.
pub open spec fn texts(v: Seq<String>) -> Seq<Seq<char>> {
    v.map_values(|s: String| s@)
}

/// How an optional string relates to its optional view.
pub open spec fn same_text(got: Option<String>, want: Option<Seq<char>>) -> bool {
    match got {
        Some(s) => want == Some(s@),
        None => want is None,
    }
}

/// Calls `sha2::Sha256::digest`: the result is the SHA-256 digest of
/// `content`, which is 32 bytes long.
#[verifier::external_body]
pub(crate) fn sha256(content: &[u8]) -> (digest: Vec<u8>)
    ensures
        digest@ == sha256_of(content@),
        digest@.len() == 32,
{
    <sha2::Sha256 as sha2::Digest>::digest(content).to_vec()
}

/// Calls `data_encoding::HEXUPPER.encode`: the result is the base-16
/// encoding of `bytes` in upper case. The call refuses an input of more
/// than the 512th part of the address space, which is left out.
#[verifier::external_body]
pub(crate) fn hex_upper_encode(bytes: &[u8]) -> (text: String)
    requires
        bytes@.len() <= usize::MAX / 512,
    ensures
        text@ == hex_upper(bytes@),
{
    data_encoding::HEXUPPER.encode(bytes)
}

/// Calls `shellexpand::env`, which puts the values of environment variables
/// in the place of their names in `path`: the result depends on the
/// environment, and is none where a variable cannot be looked up. A path
/// without a `$` names no variable, and comes back as it is. The call takes
/// the character behind a `$` for one byte where it may begin a name, and
/// does not return where it is more than that: such paths are left out.
#[verifier::external_body]
pub(crate) fn expand_env(path: &str) -> (expanded: Option<String>)
    requires
        plain_variables(path@),
    ensures
        !path@.contains('$') ==> expanded is Some && expanded->0@ == path@,
{
    match shellexpand::env(path) {
        Ok(expanded) => Some(expanded.to_string()),
        Err(_) => None,
    }
}

/// Calls `regex::Regex::new` and `regex::Regex::captures`: the result holds
/// the groups of the leftmost match of `pattern` in `text`.
#[verifier::external_body]
pub(crate) fn regex_captures(pattern: &str, text: &str) -> (groups: Option<Vec<Option<String>>>)
    ensures
        match groups {
            Some(groups) => captures_of(pattern@, text@) is Some && groups@.len() == captures_of(
                pattern@,
                text@,
            )->0.len() && forall|i: int|
                0 <= i < groups@.len() ==> same_text(
                    #[trigger] groups@[i],
                    captures_of(pattern@, text@)->0[i],
                ),
            None => captures_of(pattern@, text@) is None,
        },
{
    let re = match regex::Regex::new(pattern) {
        Ok(re) => re,
        Err(_) => return None,
    };
    match re.captures(text) {
        Some(caps) => Some(caps.iter().map(|m| m.map(|m| m.as_str().to_string())).collect()),
        None => None,
    }
}

/// Calls `str::lines`: the result holds the lines of `text`.
#[verifier::external_body]
pub(crate) fn str_lines(text: &str) -> (lines: Vec<String>)
    ensures
        texts(lines@) == lines_of(text@),
{
    text.lines().map(|line| line.to_string()).collect()
}

/// Calls `str::trim`: the result is `text` without the white space around it.
#[verifier::external_body]
pub(crate) fn str_trim(text: &str) -> (res: String)
    ensures
        res@ == trimmed(text@),
{
    text.trim().to_string()
}

/// Calls `str::trim_end_matches` with a pattern that is not empty: the
/// result is `text` with all the suffixes that match `pattern` removed, one
/// after the other.
#[verifier::external_body]
pub(crate) fn str_trim_end_matches(text: &str, pattern: &str) -> (res: String)
    requires
        pattern@.len() > 0,
    ensures
        res@ == trimmed_end(text@, pattern@),
{
    text.trim_end_matches(pattern).to_string()
}

/// Calls `String::from_utf8_lossy`: the result is `bytes` read as UTF-8.
#[verifier::external_body]
pub(crate) fn string_from_utf8_lossy(bytes: &[u8]) -> (res: String)
    ensures
        res@ == utf8_lossy(bytes@),
{
    String::from_utf8_lossy(bytes).to_string()
}

/// Calls `std::path::Path::is_absolute`.
#[verifier::external_body]
pub(crate) fn is_absolute(path: &str) -> (res: bool)
    ensures
        res == path_is_absolute(path@),
{
    std::path::Path::new(path).is_absolute()
}

/// Calls `std::path::Path::join`.
#[verifier::external_body]
pub(crate) fn join(base: &str, path: &str) -> (res: String)
    ensures
        res@ == path_joined(base@, path@),
{
    std::path::Path::new(base).join(path).to_string_lossy().to_string()
}

/// Calls `std::path::Path::parent`.
#[verifier::external_body]
pub(crate) fn parent(path: &str) -> (res: Option<String>)
    ensures
        same_text(res, path_parent(path@)),
{
    match std::path::Path::new(path).parent() {
        Some(parent) => Some(parent.to_string_lossy().to_string()),
        None => None,
    }
}

/// Calls `std::path::Path::file_name`.
#[verifier::external_body]
pub(crate) fn file_name(path: &str) -> (res: Option<String>)
    ensures
        same_text(res, path_file_name(path@)),
{
    match std::path::Path::new(path).file_name() {
        Some(name) => Some(name.to_string_lossy().to_string()),
        None => None,
    }
}

/// Calls `std::path::Path::strip_prefix`.
#[verifier::external_body]
pub(crate) fn strip_prefix(path: &str, prefix: &str) -> (res: Option<String>)
    ensures
        same_text(res, path_stripped(path@, prefix@)),
{
    match std::path::Path::new(path).strip_prefix(prefix) {
        Ok(rest) => Some(rest.to_string_lossy().to_string()),
        Err(_) => None,
    }
}

} // verus!
