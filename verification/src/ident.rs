//! Reading who is logged in from a file: a regex capture or a JSON pointer,
//! and a user name from the Epic launcher's logs.

use crate::model::{opt_view, UniqueId};
use crate::text::{chars_of, string_of, trim, trim_chars};
use vstd::prelude::*;

verus! {

/// What `regex` finds for `pattern` in `text`: `None` when the pattern does
/// not compile, else the first capture group of the first match (`None` when
/// there is no match or the group did not take part).
pub uninterp spec fn regex_first_group(pattern: Seq<char>, text: Seq<char>) -> Option<
    Option<Seq<char>>,
>;

/// Compiles `pattern` with `regex::Regex::new` and returns group 1 of its
/// first match in `text` (`Regex::captures`, `Captures::get(1)`); `None` when
/// the pattern is invalid.
#[verifier::external_body]
fn regex_capture1(pattern: &str, text: &str) -> (r: Option<Option<String>>)
    ensures
        match regex_first_group(pattern@, text@) {
            None => r is None,
            Some(g) => r matches Some(o) && opt_view(o) == g,
        },
{
    match regex::Regex::new(pattern) {
        Ok(re) => Some(re.captures(text).and_then(|c| c.get(1)).map(|m| m.as_str().to_string())),
        Err(_) => None,
    }
}

/// What `serde_json` finds at `pointer` in the JSON `text`: the string there,
/// `None` when the text does not parse, nothing is there, or it is not a string.
pub uninterp spec fn json_pointer_str(text: Seq<char>, pointer: Seq<char>) -> Option<Seq<char>>;

/// Parses `text` as a `serde_json::Value` (`Null` when it does not parse),
/// looks up `pointer` with `Value::pointer` and takes `Value::as_str`.
#[verifier::external_body]
fn json_pointer_string(text: &str, pointer: &str) -> (r: Option<String>)
    ensures
        opt_view(r) == json_pointer_str(text@, pointer@),
{
    let v: serde_json::Value = serde_json::from_str(text).unwrap_or_default();
    v.pointer(pointer).and_then(|x| x.as_str()).map(|s| s.to_string())
}

/// Why reading the current id failed.
pub enum IdError {
    /// The platform's `unique_id` regex does not compile.
    InvalidRegex,
}

/// The current id of a file-based `unique_id`, from the file's text (`None`
/// when it could not be read): the regex's first group, the JSON string at
/// the pointer, or the trimmed marker file. A registry `unique_id` has no file
/// and reads as `None` here.
pub open spec fn spec_id_from_text(uid: UniqueId, text: Option<Seq<char>>) -> Result<
    Option<Seq<char>>,
    IdError,
> {
    match text {
        None => Ok(None),
        Some(t) => match uid {
            UniqueId::FileRegex { regex, .. } => match regex_first_group(regex@, t) {
                None => Err(IdError::InvalidRegex),
                Some(g) => Ok(g),
            },
            UniqueId::JsonField { pointer, .. } => Ok(json_pointer_str(t, pointer@)),
            UniqueId::GeneratedFile { .. } => Ok(Some(trim(t))),
            UniqueId::Registry { .. } => Ok(None),
        },
    }
}

/// The current id of a file-based `unique_id`, given the file's text when it
/// could be read.
pub fn id_from_text(uid: &UniqueId, text: Option<String>) -> (r: Result<Option<String>, IdError>)
    ensures
        match spec_id_from_text(*uid, opt_view(text)) {
            Ok(o) => r matches Ok(x) && opt_view(x) == o,
            Err(e) => r matches Err(f) && f == e,
        },
{
    let t = match text {
        Some(t) => t,
        None => return Ok(None),
    };
    match uid {
        UniqueId::FileRegex { regex, .. } => match regex_capture1(regex.as_str(), t.as_str()) {
            None => Err(IdError::InvalidRegex),
            Some(g) => Ok(g),
        },
        UniqueId::JsonField { pointer, .. } => Ok(json_pointer_string(t.as_str(), pointer.as_str())),
        UniqueId::GeneratedFile { .. } => {
            let c = chars_of(t.as_str());
            let tt = trim_chars(c.as_slice());
            Ok(Some(string_of(&tt)))
        },
        UniqueId::Registry { .. } => Ok(None),
    }
}

/// Pattern that finds a display name in the Epic launcher's logs.
pub const USERNAME_PATTERN: &'static str = r#"(?:DisplayName|epicUserName|AccountName)["']?\s*[:=]\s*["']?([^"'\r\n,}]+)"#;

/// The values of regex results.
pub open spec fn captures_view(v: Seq<Option<Option<String>>>) -> Seq<Option<Option<Seq<char>>>> {
    v.map_values(|c: Option<Option<String>>| match c {
        Some(Some(n)) => Some(Some(n@)),
        Some(None) => Some(None),
        None => None,
    })
}

/// The user name given the pattern's result on each log, newest first: the
/// trimmed first group of the first log whose group is not blank; nothing
/// when the pattern does not compile.
pub open spec fn username_from(caps: Seq<Option<Option<Seq<char>>>>) -> Option<Seq<char>>
    decreases caps.len(),
{
    if caps.len() == 0 {
        None
    } else {
        match caps[0] {
            None => None,
            Some(Some(n)) if trim(n).len() > 0 => Some(trim(n)),
            _ => username_from(caps.skip(1)),
        }
    }
}

/// The user name found in the first of `texts` (newest log first) whose first
/// match yields a non-blank name; `None` when the pattern does not compile.
pub open spec fn spec_username(texts: Seq<Seq<char>>) -> Option<Seq<char>> {
    username_from(texts.map_values(|t: Seq<char>| regex_first_group(USERNAME_PATTERN@, t)))
}

/// Picks the user name from the pattern's result on each log (see
/// [`username_from`]).
pub fn username_from_captures(caps: &Vec<Option<Option<String>>>) -> (r: Option<String>)
    ensures
        opt_view(r) == username_from(captures_view(caps@)),
{
    let ghost cv = captures_view(caps@);
    let mut i: usize = 0;
    assert(cv.skip(0) == cv);
    while i < caps.len()
        invariant
            i <= caps.len(),
            cv == captures_view(caps@),
            username_from(cv) == username_from(cv.skip(i as int)),
        decreases caps.len() - i,
    {
        assert(cv.skip(i as int)[0] == cv[i as int]);
        assert(cv.skip(i as int).skip(1) == cv.skip(i + 1));
        match &caps[i] {
            None => return None,
            Some(Some(n)) => {
                let c = chars_of(n.as_str());
                let t = trim_chars(c.as_slice());
                if t.len() > 0 {
                    return Some(string_of(&t));
                }
            },
            Some(None) => {},
        }
        i = i + 1;
    }
    None
}

/// Best-effort user name from recent Epic logs, given their texts newest
/// first (the caller reads at most the three newest `.log` files).
pub fn username_from_logs(texts: &Vec<String>) -> (r: Option<String>)
    ensures
        opt_view(r) == spec_username(texts@.map_values(|t: String| t@)),
{
    let ghost tv = texts@.map_values(|t: String| t@);
    let mut caps: Vec<Option<Option<String>>> = Vec::new();
    let mut i: usize = 0;
    while i < texts.len()
        invariant
            i <= texts.len(),
            tv == texts@.map_values(|t: String| t@),
            captures_view(caps@) == tv.take(i as int).map_values(
                |t: Seq<char>| regex_first_group(USERNAME_PATTERN@, t),
            ),
        decreases texts.len() - i,
    {
        let c = regex_capture1(USERNAME_PATTERN, texts[i].as_str());
        let ghost before = captures_view(caps@);
        caps.push(c);
        assert(tv[i as int] == texts@[i as int]@);
        assert(captures_view(caps@) =~= before.push(regex_first_group(USERNAME_PATTERN@, tv[i as int])));
        assert(tv.take(i + 1).map_values(|t: Seq<char>| regex_first_group(USERNAME_PATTERN@, t)) =~= tv.take(
            i as int,
        ).map_values(|t: Seq<char>| regex_first_group(USERNAME_PATTERN@, t)).push(
            regex_first_group(USERNAME_PATTERN@, tv[i as int]),
        ));
        i = i + 1;
    }
    assert(tv.take(texts.len() as int) == tv);
    username_from_captures(&caps)
}

} // verus!
