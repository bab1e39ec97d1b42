//! File names derived from a serial's title.

use vstd::prelude::*;

verus! {

/// Whether a character cannot stand in a file name on common file systems:
/// a control character, or one of `"*/:<>?\|`.
pub open spec fn unsafe_name_char(c: char) -> bool {
    ||| (c as u32) <= 31
    ||| (c as u32) == 127
    ||| c == '"'
    ||| c == '*'
    ||| c == '/'
    ||| c == ':'
    ||| c == '<'
    ||| c == '>'
    ||| c == '?'
    ||| c == '\\'
    ||| c == '|'
}

/// `s` with every maximal run of unsafe characters replaced by one `_`, and
/// every other character kept.
pub open spec fn sanitized(s: Seq<char>) -> Seq<char>
    decreases s.len(),
{
    if s.len() == 0 {
        seq![]
    } else {
        let init = s.drop_last();
        if !unsafe_name_char(s.last()) {
            sanitized(init).push(s.last())
        } else if init.len() > 0 && unsafe_name_char(init.last()) {
            sanitized(init)
        } else {
            sanitized(init).push('_')
        }
    }
}

/// The pattern of one or more characters that file names cannot hold.
pub open spec fn unsafe_name_pattern() -> Seq<char> {
    "[\\x00-\\x1F\\x7F\"*/:<>?\\\\|]+"@
}

/// Relies on regex::Regex::new and Regex::replace_all: the pattern is a valid
/// character class repeated one or more times, so each leftmost-first,
/// greedy, non-overlapping match is a maximal run of characters of that class, and
/// each is replaced by `_`, which holds no group reference.
#[verifier::external_body]
fn replace_all(pattern: &str, text: &str, rep: &str) -> (r: Option<String>)
    requires
        pattern@ == unsafe_name_pattern(),
        rep@ == "_"@,
    ensures
        r is Some,
        r matches Some(s) ==> s@ == sanitized(text@),
{
    let re = regex::Regex::new(pattern).ok()?;
    Some(re.replace_all(text, rep).into_owned())
}

/// Replace every run of characters that file names cannot hold by `_`.
pub fn sanitize_path(path: &str) -> (r: String)
    ensures
        r@ == sanitized(path@),
{
    match replace_all("[\\x00-\\x1F\\x7F\"*/:<>?\\\\|]+", path, "_") {
        Some(s) => s,
        None => path.to_owned(),
    }
}

} // verus!
