use vstd::prelude::*;
use vstd::string::StrSliceExecFns;
use vstd::string::StringExecFns;

use crate::text::rfind_before;
use crate::text::rfind_char;

verus! {

/// Splits a combined path into the directory part and the file name — the
/// decomposition the settings bootstrap makes before it checks that the
/// file exists.  A path without `/` is all file name, with an empty
/// directory; otherwise the file name is what follows the last `/`, and the
/// directory is the preceding segments re-joined with a `/` put before each
/// of them (so the directory string starts with `/` also for a relative
/// path).
pub fn path_exists_combined_path(path: &str) -> (r: (String, String))
    ensures
        match rfind_before(path@, '/', path@.len() as int) {
            None => r.0@ == Seq::<char>::empty() && r.1@ == path@,
            Some(j) => r.0@ == seq!['/'] + path@.subrange(0, j) && r.1@ == path@.subrange(
                j + 1,
                path@.len() as int,
            ),
        },
{
    let n: usize = path.unicode_len();
    match rfind_char(path, '/') {
        None => (String::new(), path.to_owned()),
        Some(j) => {
            let mut dir: String = "/".to_owned();
            dir.append(path.substring_char(0, j));
            let file: String = path.substring_char(j + 1, n).to_owned();
            proof {
                reveal_strlit("/");
                assert(dir@ =~= seq!['/'] + path@.subrange(0, j as int));
            }
            (dir, file)
        },
    }
}

} // verus!
