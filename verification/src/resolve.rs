use vstd::prelude::*;
use vstd::string::StrSliceExecFns;
use vstd::string::StringExecFns;

use crate::env_map::EnvMap;
use crate::errors::EnvError;
use crate::text::find_char;
use crate::text::find_from;

verus! {

/// Position of the first `$` of a token, if any.
pub open spec fn dollar_idx(t: Seq<char>) -> Option<int> {
    find_from(t, '$', 0)
}

/// Where the name referenced from the `$` at `d` ends: at the first `/`
/// after the `$`, or at the end of the token.
pub open spec fn name_end(t: Seq<char>, d: int) -> int {
    match find_from(t, '/', d + 1) {
        None => t.len() as int,
        Some(j) => j,
    }
}

/// The characters between the first `$` (at `d`) and its terminator; may be
/// empty.
pub open spec fn raw_ref_name(t: Seq<char>, d: int) -> Seq<char> {
    t.subrange(d + 1, name_end(t, d))
}

/// The key a token references: the characters between the first `$` and the
/// first `/` after it, or the end of the token.  `None` when the token has
/// no `$` or when nothing usable stands between the `$` and its terminator.
pub open spec fn spec_resolve(t: Seq<char>) -> Option<Seq<char>> {
    match dollar_idx(t) {
        None => None,
        Some(d) => {
            let name = raw_ref_name(t, d);
            if name.len() == 0 {
                None
            } else {
                Some(name)
            }
        },
    }
}

/// A token that shows a `$` with no character between it and the first `/`
/// (or the end of the token): the malformed-reference case of the line
/// grammar.
pub open spec fn token_malformed(t: Seq<char>) -> bool {
    dollar_idx(t) is Some && spec_resolve(t) is None
}

/// The substitution of the one reference of `t` against `m`: the text before
/// the `$`, then the first value bound to the referenced name, then the
/// terminator and everything after it.  A token without a usable reference
/// passes through unchanged; a reference to an unbound name fails.
pub open spec fn spec_subst(t: Seq<char>, m: Map<Seq<char>, Seq<Seq<char>>>) -> Result<
    Seq<char>,
    EnvError,
> {
    match dollar_idx(t) {
        None => Ok(t),
        Some(d) => {
            let name = raw_ref_name(t, d);
            if name.len() == 0 {
                Ok(t)
            } else if !m.contains_key(name) {
                Err(EnvError::UnknownReference)
            } else {
                Ok(t.subrange(0, d) + m[name][0] + t.subrange(name_end(t, d), t.len() as int))
            }
        },
    }
}

/// The key that `token` references, if it references one.
///
/// A token references another variable when it contains a `$`: the
/// referenced key is everything between the `$` and the first `/` after it,
/// or the end of the token.  Whether that key is actually bound anywhere is
/// the caller's concern.
pub fn resolve_reference(token: &str) -> (r: Option<String>)
    ensures
        match r {
            Some(name) => spec_resolve(token@) == Some(name@),
            None => spec_resolve(token@) is None,
        },
{
    let n: usize = token.unicode_len();
    match find_char(token, '$', 0) {
        None => None,
        Some(d) => {
            let end: usize = match find_char(token, '/', d + 1) {
                None => n,
                Some(j) => j,
            };
            if d + 1 == end {
                None
            } else {
                Some(token.substring_char(d + 1, end).to_owned())
            }
        },
    }
}

/// Replaces the reference of `token` (if any) with the first value bound to
/// the referenced key in `map`; fails with `UnknownReference` when the key
/// is unbound, and returns the token unchanged when it references nothing.
pub fn substitute(token: &str, map: &EnvMap) -> (r: Result<String, EnvError>)
    requires
        map.wf(),
    ensures
        match r {
            Ok(s) => spec_subst(token@, map@) == Ok::<Seq<char>, EnvError>(s@),
            Err(e) => spec_subst(token@, map@) == Err::<Seq<char>, EnvError>(e),
        },
{
    let n: usize = token.unicode_len();
    match find_char(token, '$', 0) {
        None => Ok(token.to_owned()),
        Some(d) => {
            let end: usize = match find_char(token, '/', d + 1) {
                None => n,
                Some(j) => j,
            };
            if d + 1 == end {
                Ok(token.to_owned())
            } else {
                let name: String = token.substring_char(d + 1, end).to_owned();
                match map.get(&name) {
                    None => Err(EnvError::UnknownReference),
                    Some(vals) => {
                        let mut out: String = token.substring_char(0, d).to_owned();
                        out.append(vals[0].as_str());
                        out.append(token.substring_char(end, n));
                        proof {
                            assert(vals.deep_view()[0] == vals@[0]@);
                        }
                        Ok(out)
                    },
                }
            }
        },
    }
}

} // verus!
