use vstd::prelude::*;

use crate::commands::External;
use crate::text::{append_str, push_char};

verus! {

/// Some execute bit (owner, group or others) is set in `mode`.
pub open spec fn mode_executable(mode: u32) -> bool {
    mode & 0o111u32 != 0
}

/// Whether file mode bits let someone execute the file.
pub fn is_executable(mode: u32) -> (r: bool)
    ensures
        r == mode_executable(mode),
{
    let owner = mode & 0o100u32 != 0;
    let group = mode & 0o010u32 != 0;
    let others = mode & 0o001u32 != 0;
    assert((mode & 0o111u32 != 0) == (mode & 0o100u32 != 0 || mode & 0o010u32 != 0 || mode
        & 0o001u32 != 0)) by (bit_vector);
    owner || group || others
}

/// `name` inside directory `dir`: an absolute name stands alone, an empty
/// directory adds nothing, and a `/` separates the two unless `dir` ends
/// with one.
pub open spec fn path_join(dir: Seq<char>, name: Seq<char>) -> Seq<char> {
    if name.len() > 0 && name[0] == '/' {
        name
    } else if dir.len() == 0 {
        name
    } else if dir.last() == '/' {
        dir + name
    } else {
        dir + seq!['/'] + name
    }
}

/// The index of the first candidate from `i` on whose mode is known and
/// executable, among the first `n`.
pub open spec fn first_executable(modes: Seq<Option<u32>>, i: int, n: int) -> Option<int>
    decreases n - i,
{
    if i < 0 || i >= n || i >= modes.len() {
        None
    } else if modes[i] is Some && mode_executable(modes[i]->Some_0) {
        Some(i)
    } else {
        first_executable(modes, i + 1, n)
    }
}

impl External {
    /// Where the program would be in each of the `PATH` directories `dirs`,
    /// in order.
    pub fn candidates(&self, dirs: &Vec<String>) -> (r: Vec<String>)
        ensures
            r@.len() == dirs@.len(),
            forall|i: int|
                0 <= i < dirs@.len() ==> (#[trigger] r@[i])@ == path_join(dirs@[i]@, self@),
    {
        let name = self.name();
        let n = name.unicode_len();
        let absolute = n > 0 && name.get_char(0) == '/';
        let mut r: Vec<String> = Vec::new();
        let mut i: usize = 0;
        while i < dirs.len()
            invariant
                i <= dirs@.len(),
                name@ == self@,
                n == self@.len(),
                absolute == (n > 0 && self@[0] == '/'),
                r@.len() == i,
                forall|k: int| 0 <= k < i ==> (#[trigger] r@[k])@ == path_join(dirs@[k]@, self@),
            decreases dirs@.len() - i,
        {
            let d = dirs[i].as_str();
            let m = d.unicode_len();
            let mut p = String::new();
            if !absolute && m > 0 {
                append_str(&mut p, d);
                if d.get_char(m - 1) != '/' {
                    push_char(&mut p, '/');
                }
            }
            append_str(&mut p, name);
            assert(p@ =~= path_join(dirs@[i as int]@, self@));
            r.push(p);
            i = i + 1;
        }
        r
    }
}

/// The first of `paths` whose mode (from `modes`, `None` where the file is
/// missing) lets it be executed; this is where `PATH` has the program.
pub fn resolve(paths: &Vec<String>, modes: &Vec<Option<u32>>) -> (r: Option<String>)
    ensures
        match first_executable(modes@, 0, paths@.len() as int) {
            Some(i) => r is Some && r->Some_0@ == paths@[i]@,
            None => r is None,
        },
{
    let mut i: usize = 0;
    while i < paths.len() && i < modes.len()
        invariant
            i <= paths@.len(),
            first_executable(modes@, 0, paths@.len() as int) == first_executable(
                modes@,
                i as int,
                paths@.len() as int,
            ),
        decreases paths@.len() - i,
    {
        match modes[i] {
            Some(m) => {
                if is_executable(m) {
                    return Some(paths[i].clone());
                }
            },
            None => {},
        }
        i = i + 1;
    }
    None
}

} // verus!
