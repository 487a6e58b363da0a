use vstd::prelude::*;

use crate::decode::decode;
use crate::decode::is_export;
use crate::decode::is_export_line;
use crate::decode::spec_decode;
use crate::env_map::clone_values;
use crate::env_map::EnvMap;
use crate::errors::EnvError;
use crate::text::split_char;
use crate::text::split_seq;

verus! {

/// How one decoded line changes the mapping: replace semantics overwrite
/// the binding, append semantics concatenate the new values after the
/// existing ones (existing order kept, new values last).  A binding is
/// never made empty: when nothing remains of the values — every token was a
/// self-reference — and the key is unbound, the mapping is left alone.
pub open spec fn apply_binding(
    m: Map<Seq<char>, Seq<Seq<char>>>,
    key: Seq<char>,
    vals: Seq<Seq<char>>,
    append: bool,
) -> Map<Seq<char>, Seq<Seq<char>>> {
    if append && m.contains_key(key) {
        m.insert(key, m[key] + vals)
    } else if vals.len() > 0 {
        m.insert(key, vals)
    } else {
        m
    }
}

/// One step of the fold: a line that is no `export` line is skipped; an
/// `export` line is decoded against the mapping so far and applied to it.
pub open spec fn fold_line(m: Map<Seq<char>, Seq<Seq<char>>>, line: Seq<char>) -> Result<
    Map<Seq<char>, Seq<Seq<char>>>,
    EnvError,
> {
    if !is_export_line(line) {
        Ok(m)
    } else {
        match spec_decode(line, m) {
            Err(e) => Err(e),
            Ok(d) => Ok(apply_binding(m, d.0, d.1, d.2)),
        }
    }
}

/// The fold of the lines from position `i` on over `m`; the first failing
/// line aborts the whole aggregation.
pub open spec fn agg_lines(
    lines: Seq<Seq<char>>,
    m: Map<Seq<char>, Seq<Seq<char>>>,
    i: int,
) -> Result<Map<Seq<char>, Seq<Seq<char>>>, EnvError>
    decreases lines.len() - i,
    when 0 <= i
{
    if i >= lines.len() {
        Ok(m)
    } else {
        match fold_line(m, lines[i]) {
            Err(e) => Err(e),
            Ok(m2) => agg_lines(lines, m2, i + 1),
        }
    }
}

/// The aggregation of a whole profile text over the seed mapping.
pub open spec fn spec_aggregate(text: Seq<char>, seed: Map<Seq<char>, Seq<Seq<char>>>) -> Result<
    Map<Seq<char>, Seq<Seq<char>>>,
    EnvError,
> {
    agg_lines(split_seq(text, '\n'), seed, 0)
}

/// Folds every `export` line of `profile_text`, in order, into a mapping
/// that starts as `seed`, decoding each line against the mapping built so
/// far.  Parsing is strict and all-or-nothing: the first malformed line or
/// unresolved reference fails the whole aggregation and no partial mapping
/// is returned.  The seed itself is left untouched.
#[verifier::loop_isolation(false)]
pub fn aggregate(profile_text: &str, seed: &EnvMap) -> (r: Result<EnvMap, EnvError>)
    requires
        seed.wf(),
    ensures
        match r {
            Ok(m) => m.wf() && spec_aggregate(profile_text@, seed@) == Ok::<
                Map<Seq<char>, Seq<Seq<char>>>,
                EnvError,
            >(m@),
            Err(e) => spec_aggregate(profile_text@, seed@) == Err::<
                Map<Seq<char>, Seq<Seq<char>>>,
                EnvError,
            >(e),
        },
{
    let lines: Vec<String> = split_char(profile_text, '\n');
    let ghost lseq = lines.deep_view();
    let mut m: EnvMap = seed.clone_map();
    let mut i: usize = 0;
    while i < lines.len()
        invariant
            i <= lseq.len(),
            m.wf(),
            agg_lines(lseq, seed@, 0) == agg_lines(lseq, m@, i as int),
        decreases lseq.len() - i,
    {
        let line: &String = &lines[i];
        proof {
            assert(lseq[i as int] == lines@[i as int]@);
        }
        if is_export(line.as_str()) {
            match decode(line.as_str(), &m) {
                Err(e) => {
                    return Err(e);
                },
                Ok(kvf) => {
                    let (key, vals, append_flag) = kvf;
                    let ghost dm = m@;
                    let ghost key_view = key@;
                    let ghost vals_deep = vals.deep_view();
                    if append_flag {
                        let existing_opt: Option<Vec<String>> = match m.get(&key) {
                            Some(ex) => Some(clone_values(ex)),
                            None => None,
                        };
                        match existing_opt {
                            Some(mut combined) => {
                                let ghost ex_view = combined@;
                                let mut tail = vals;
                                combined.append(&mut tail);
                                proof {
                                    assert forall|k: int|
                                        0 <= k < combined@.len() implies combined.deep_view()[k]
                                        == (dm[key_view] + vals_deep)[k] by {
                                        if k < ex_view.len() {
                                            assert(combined@[k] == ex_view[k]);
                                        } else {
                                            assert(combined@[k] == vals@[k - ex_view.len()]);
                                        }
                                    }
                                    assert(combined.deep_view() =~= dm[key_view] + vals_deep);
                                }
                                m.insert(key, combined);
                            },
                            None => {
                                if vals.len() > 0 {
                                    m.insert(key, vals);
                                }
                            },
                        }
                    } else {
                        if vals.len() > 0 {
                            m.insert(key, vals);
                        }
                    }
                    proof {
                        assert(m@ == apply_binding(dm, key_view, vals_deep, append_flag));
                    }
                },
            }
        }
        i = i + 1;
    }
    Ok(m)
}

} // verus!
