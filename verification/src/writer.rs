use vstd::prelude::*;
use vstd::string::StrSliceExecFns;
use vstd::string::StringExecFns;

use crate::aggregate::aggregate;
use crate::aggregate::spec_aggregate;
use crate::env_map::EnvMap;
use crate::errors::EnvError;
use crate::text::find_char;
use crate::text::lemma_find_contains;

verus! {

/// The two successful outcomes of adding a variable: `Added` carries the
/// exact bytes that are to be appended to the profile file;
/// `AlreadyPresent` reports that the value was already bound to the key, so
/// the file is to be left untouched.
#[derive(Debug)]
pub enum AddOutcome {
    Added(String),
    AlreadyPresent,
}

/// A submission that is rejected before anything else happens: an empty
/// value, or one containing the null character.
pub open spec fn invalid_submission(value: Seq<char>) -> bool {
    value.len() == 0 || value.contains('\0')
}

/// The bytes that persist `key` = `value`: a leading newline, then
/// `export KEY="VALUE":$KEY`, the value taken verbatim.
pub open spec fn export_line(key: Seq<char>, value: Seq<char>) -> Seq<char> {
    "\nexport "@ + key + "=\""@ + value + "\":$"@ + key
}

/// Whether `value` is already an exact element of the ordered values bound
/// to `key`; `false` when `key` is unbound.  An exact string match: no
/// normalization and no reference resolution.
#[verifier::loop_isolation(false)]
pub fn is_duplicate(map: &EnvMap, key: &str, value: &str) -> (r: bool)
    requires
        map.wf(),
    ensures
        r == (map@.contains_key(key@) && map@[key@].contains(value@)),
{
    let key_string: String = key.to_owned();
    match map.get(&key_string) {
        None => false,
        Some(vals) => {
            let value_string: String = value.to_owned();
            let mut i: usize = 0;
            while i < vals.len()
                invariant
                    i <= vals@.len(),
                    forall|k: int| 0 <= k < i ==> vals.deep_view()[k] != value@,
                decreases vals@.len() - i,
            {
                if vals[i] == value_string {
                    proof {
                        assert(vals.deep_view()[i as int] == vals@[i as int]@);
                        assert(map@[key@].contains(value@));
                    }
                    return true;
                }
                proof {
                    assert(vals.deep_view()[i as int] == vals@[i as int]@);
                }
                i = i + 1;
            }
            proof {
                if map@[key@].contains(value@) {
                    let w = choose|w: int|
                        0 <= w < map@[key@].len() && map@[key@][w] == value@;
                    assert(vals.deep_view()[w] != value@);
                }
            }
            false
        },
    }
}

/// Whether a submission must be rejected before any aggregation or file
/// access.
fn submission_invalid(value: &str) -> (r: bool)
    ensures
        r == invalid_submission(value@),
{
    if value.unicode_len() == 0 {
        return true;
    }
    let found: bool = match find_char(value, '\0', 0) {
        Some(_) => true,
        None => false,
    };
    proof {
        lemma_find_contains(value@, '\0');
    }
    found
}

/// Adds a variable submission against the profile text and the seed
/// mapping.
///
/// The submission is validated first: an empty value or one containing a
/// null character fails with `InvalidInput` before anything else is looked
/// at.  The current mapping is then built by aggregating `profile_text`
/// over `seed`; any aggregation failure is passed through.  A value already
/// bound to the key is reported as `AlreadyPresent`, and nothing is to be
/// written.  Otherwise the outcome is `Added` with the exact bytes to
/// append to the profile file: `\nexport KEY="VALUE":$KEY`, the value
/// verbatim.
pub fn add_variable(key: &str, value: &str, profile_text: &str, seed: &EnvMap) -> (r: Result<
    AddOutcome,
    EnvError,
>)
    requires
        seed.wf(),
    ensures
        invalid_submission(value@) ==> r == Err::<AddOutcome, EnvError>(EnvError::InvalidInput),
        !invalid_submission(value@) ==> match spec_aggregate(profile_text@, seed@) {
            Err(e) => r == Err::<AddOutcome, EnvError>(e),
            Ok(m) => {
                if m.contains_key(key@) && m[key@].contains(value@) {
                    r == Ok::<AddOutcome, EnvError>(AddOutcome::AlreadyPresent)
                } else {
                    r matches Ok(AddOutcome::Added(line)) && line@ == export_line(key@, value@)
                }
            },
        },
{
    if submission_invalid(value) {
        return Err(EnvError::InvalidInput);
    }
    let m: EnvMap = match aggregate(profile_text, seed) {
        Ok(m) => m,
        Err(e) => {
            return Err(e);
        },
    };
    if is_duplicate(&m, key, value) {
        return Ok(AddOutcome::AlreadyPresent);
    }
    let mut line: String = "\nexport ".to_owned();
    line.append(key);
    line.append("=\"");
    line.append(value);
    line.append("\":$");
    line.append(key);
    proof {
        assert(line@ =~= export_line(key@, value@));
    }
    Ok(AddOutcome::Added(line))
}

} // verus!
