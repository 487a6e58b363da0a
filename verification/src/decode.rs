use vstd::prelude::*;
use vstd::string::StrSliceExecFns;

use crate::env_map::EnvMap;
use crate::errors::EnvError;
use crate::resolve::raw_ref_name;
use crate::resolve::spec_subst;
use crate::resolve::substitute;
use crate::resolve::token_malformed;
use crate::text::find_char;
use crate::text::find_from;
use crate::text::split_char;
use crate::text::split_seq;
use crate::text::strip_quote_chars;
use crate::text::strip_quotes;

verus! {

/// A semantically meaningful profile line: at least seven characters long
/// and starting with the literal prefix `export ` (the space included).
pub open spec fn is_export_line(line: Seq<char>) -> bool {
    line.len() >= 7 && line.subrange(0, 7) == "export "@
}

/// A self-reference: the token begins with `$` and the key it references is
/// `key` itself.
pub open spec fn is_self_ref(t: Seq<char>, key: Seq<char>) -> bool {
    t.len() > 0 && t[0] == '$' && raw_ref_name(t, 0) == key
}

/// The decoding of the raw tokens of a multi-valued line: a malformed
/// reference fails the line; a self-reference to `key` is dropped from the
/// output and turns the append flag on; every other token is substituted
/// against `m` and kept, in order.
pub open spec fn decode_tokens(
    toks: Seq<Seq<char>>,
    key: Seq<char>,
    m: Map<Seq<char>, Seq<Seq<char>>>,
) -> Result<(Seq<Seq<char>>, bool), EnvError>
    decreases toks.len(),
{
    if toks.len() == 0 {
        Ok((Seq::empty(), false))
    } else {
        let t = toks[0];
        if token_malformed(t) {
            Err(EnvError::MalformedLine)
        } else if is_self_ref(t, key) {
            match decode_tokens(toks.drop_first(), key, m) {
                Err(e) => Err(e),
                Ok(rest) => Ok((rest.0, true)),
            }
        } else {
            match spec_subst(t, m) {
                Err(e) => Err(e),
                Ok(v) => match decode_tokens(toks.drop_first(), key, m) {
                    Err(e) => Err(e),
                    Ok(rest) => Ok((seq![v] + rest.0, rest.1)),
                },
            }
        }
    }
}

/// The decoding of one `export` line against the mapping built so far: the
/// key before the first `=`, the ordered resolved values (quotes stripped,
/// colon-split), and whether they extend an existing binding — a
/// self-reference was dropped — rather than replace it.  A line without `=`,
/// or with a `$` that references nothing, is malformed.
pub open spec fn spec_decode(line: Seq<char>, m: Map<Seq<char>, Seq<Seq<char>>>) -> Result<
    (Seq<char>, Seq<Seq<char>>, bool),
    EnvError,
>
    recommends
        is_export_line(line),
{
    let rest = line.subrange(7, line.len() as int);
    match find_from(rest, '=', 0) {
        None => Err(EnvError::MalformedLine),
        Some(e) => {
            let key = rest.subrange(0, e);
            let raw = rest.subrange(e + 1, rest.len() as int);
            let toks = split_seq(strip_quotes(raw), ':');
            if toks.len() == 1 {
                let t = toks[0];
                if token_malformed(t) {
                    Err(EnvError::MalformedLine)
                } else {
                    match spec_subst(t, m) {
                        Err(er) => Err(er),
                        Ok(v) => Ok((key, seq![v], false)),
                    }
                }
            } else {
                match decode_tokens(toks, key, m) {
                    Err(er) => Err(er),
                    Ok(vs) => Ok((key, vs.0, vs.1)),
                }
            }
        },
    }
}

/// Whether the line is one the decoder handles.
pub fn is_export(line: &str) -> (r: bool)
    ensures
        r == is_export_line(line@),
{
    let n: usize = line.unicode_len();
    if n < 7 {
        return false;
    }
    let prefix: String = line.substring_char(0, 7).to_owned();
    let expected: String = "export ".to_owned();
    prefix == expected
}

/// Whether the token shows a `$` that references nothing.
fn token_has_bad_ref(t: &str) -> (r: bool)
    ensures
        r == token_malformed(t@),
{
    let n: usize = t.unicode_len();
    match find_char(t, '$', 0) {
        None => false,
        Some(d) => {
            let end: usize = match find_char(t, '/', d + 1) {
                None => n,
                Some(j) => j,
            };
            d + 1 == end
        },
    }
}

/// Whether the token is a self-reference to `key`.
fn self_ref(t: &str, key: &String) -> (r: bool)
    ensures
        r == is_self_ref(t@, key@),
{
    let n: usize = t.unicode_len();
    if n == 0 {
        return false;
    }
    if !(t.get_char(0) == '$') {
        return false;
    }
    let end: usize = match find_char(t, '/', 1) {
        None => n,
        Some(j) => j,
    };
    let name: String = t.substring_char(1, end).to_owned();
    name == *key
}

/// Decodes one `export` line against the mapping built so far, returning the
/// key, the resolved values in order, and whether they extend an existing
/// binding rather than replace it.
#[verifier::loop_isolation(false)]
pub fn decode(line: &str, map: &EnvMap) -> (r: Result<(String, Vec<String>, bool), EnvError>)
    requires
        map.wf(),
        is_export_line(line@),
    ensures
        match r {
            Ok(t) => spec_decode(line@, map@) == Ok::<(Seq<char>, Seq<Seq<char>>, bool), EnvError>(
                (t.0@, t.1.deep_view(), t.2),
            ),
            Err(e) => spec_decode(line@, map@) == Err::<
                (Seq<char>, Seq<Seq<char>>, bool),
                EnvError,
            >(e),
        },
{
    let n: usize = line.unicode_len();
    let rest: String = line.substring_char(7, n).to_owned();
    let rn: usize = rest.as_str().unicode_len();
    match find_char(rest.as_str(), '=', 0) {
        None => Err(EnvError::MalformedLine),
        Some(eq) => {
            let key: String = rest.as_str().substring_char(0, eq).to_owned();
            let raw: String = rest.as_str().substring_char(eq + 1, rn).to_owned();
            let stripped: String = strip_quote_chars(raw.as_str());
            let toks: Vec<String> = split_char(stripped.as_str(), ':');
            let ghost toks_seq = toks.deep_view();
            if toks.len() == 1 {
                let t: &String = &toks[0];
                proof {
                    assert(toks_seq[0] == toks@[0]@);
                }
                if token_has_bad_ref(t.as_str()) {
                    Err(EnvError::MalformedLine)
                } else {
                    match substitute(t.as_str(), map) {
                        Err(er) => Err(er),
                        Ok(v) => {
                            let mut vals: Vec<String> = Vec::new();
                            vals.push(v);
                            proof {
                                assert(vals.deep_view() =~= seq![vals@[0]@]);
                            }
                            Ok((key, vals, false))
                        },
                    }
                }
            } else {
                let mut vals: Vec<String> = Vec::new();
                let mut append_flag: bool = false;
                let mut i: usize = 0;
                proof {
                    assert(toks_seq.subrange(0, toks_seq.len() as int) =~= toks_seq);
                    assert(vals.deep_view() =~= Seq::<Seq<char>>::empty());
                }
                while i < toks.len()
                    invariant
                        i <= toks_seq.len(),
                        match decode_tokens(
                            toks_seq.subrange(i as int, toks_seq.len() as int),
                            key@,
                            map@,
                        ) {
                            Ok(res) => decode_tokens(toks_seq, key@, map@) == Ok::<
                                (Seq<Seq<char>>, bool),
                                EnvError,
                            >((vals.deep_view() + res.0, append_flag || res.1)),
                            Err(e) => decode_tokens(toks_seq, key@, map@) == Err::<
                                (Seq<Seq<char>>, bool),
                                EnvError,
                            >(e),
                        },
                    decreases toks_seq.len() - i,
                {
                    let ghost suffix = toks_seq.subrange(i as int, toks_seq.len() as int);
                    let ghost suffix2 = toks_seq.subrange(i + 1, toks_seq.len() as int);
                    let t: &String = &toks[i];
                    proof {
                        assert(toks_seq[i as int] == toks@[i as int]@);
                        assert(suffix[0] == toks_seq[i as int]);
                        assert(suffix.drop_first() =~= suffix2);
                    }
                    if token_has_bad_ref(t.as_str()) {
                        return Err(EnvError::MalformedLine);
                    }
                    if self_ref(t.as_str(), &key) {
                        append_flag = true;
                    } else {
                        match substitute(t.as_str(), map) {
                            Err(er) => {
                                return Err(er);
                            },
                            Ok(v) => {
                                let ghost old_vals = vals.deep_view();
                                let ghost v_view = v@;
                                vals.push(v);
                                proof {
                                    assert(vals.deep_view() =~= old_vals.push(v_view));
                                    match decode_tokens(suffix2, key@, map@) {
                                        Ok(res2) => {
                                            assert(old_vals + (seq![v_view] + res2.0)
                                                =~= vals.deep_view() + res2.0);
                                        },
                                        Err(_) => {},
                                    }
                                }
                            },
                        }
                    }
                    i = i + 1;
                }
                proof {
                    assert(toks_seq.subrange(toks_seq.len() as int, toks_seq.len() as int)
                        =~= Seq::<Seq<char>>::empty());
                    assert(vals.deep_view() + Seq::<Seq<char>>::empty() =~= vals.deep_view());
                }
                Ok((key, vals, append_flag))
            }
        },
    }
}

} // verus!
