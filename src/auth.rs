//! The bearer token carried by an `Authorization` header value.

use vstd::prelude::*;

use crate::json::text_eq;

verus! {

/// Unicode `White_Space`, the characters that `str::trim` removes.
pub open spec fn is_white_space(c: char) -> bool {
    ||| '\u{9}' <= c && c <= '\u{d}'
    ||| c == ' '
    ||| c == '\u{85}'
    ||| c == '\u{a0}'
    ||| c == '\u{1680}'
    ||| '\u{2000}' <= c && c <= '\u{200a}'
    ||| c == '\u{2028}'
    ||| c == '\u{2029}'
    ||| c == '\u{202f}'
    ||| c == '\u{205f}'
    ||| c == '\u{3000}'
}

/// `t` is `s` without its leading and trailing white space.
pub open spec fn is_trimmed(s: Seq<char>, t: Seq<char>) -> bool {
    exists|a: int, b: int|
        0 <= a <= b <= s.len() && t == s.subrange(a, b) && (forall|i: int| 0 <= i < a ==> #[trigger] is_white_space(s[i]))
            && (forall|i: int| b <= i < s.len() ==> #[trigger] is_white_space(s[i])) && (a < b ==> !is_white_space(s[a])
            && !is_white_space(s[b - 1]))
}

/// Relies on `str::trim`: the text with leading and trailing `White_Space`
/// removed.
#[verifier::external_body]
fn trim_white_space<'a>(s: &'a str) -> (r: &'a str)
    ensures
        is_trimmed(s@, r@),
{
    s.trim()
}

pub open spec fn bearer_prefix() -> Seq<char> {
    "Bearer "@
}

/// `r` is the token of the header value `h`: present exactly when `h`
/// starts with `Bearer `, and then the rest of `h`, trimmed.
pub open spec fn bearer_result(h: Seq<char>, r: Option<String>) -> bool {
    &&& (r is Some <==> h.len() >= 7 && h.take(7) == bearer_prefix())
    &&& (r matches Some(t) ==> is_trimmed(h.skip(7), t@))
}

/// The token of an `Authorization` header value: what follows `Bearer `,
/// trimmed; `None` for any other scheme.
pub fn bearer_token(header: &str) -> (r: Option<String>)
    ensures
        bearer_result(header@, r),
{
    proof {
        reveal_strlit("Bearer ");
    }
    let n = header.unicode_len();
    if n < 7 {
        return None;
    }
    let head = header.substring_char(0, 7);
    if !text_eq(head, "Bearer ") {
        return None;
    }
    let rest = header.substring_char(7, n);
    proof {
        assert(rest@ =~= header@.skip(7));
    }
    Some(String::from_str(trim_white_space(rest)))
}

} // verus!
