//! Where a program may be found: the entries of the search path, each joined with the
//! program's name.

use vstd::prelude::*;
use vstd::string::*;
use crate::text::{split, split_text};

verus! {

/// The file `name` as seen from the directory `dir`. A name that begins with `/` stands
/// alone; otherwise it follows the directory, with one `/` between the two unless the
/// directory is empty or already ends in one.
pub open spec fn join_path(dir: Seq<char>, name: Seq<char>) -> Seq<char> {
    if name.len() > 0 && name[0] == '/' {
        name
    } else if dir.len() > 0 && dir.last() != '/' {
        dir + seq!['/'] + name
    } else {
        dir + name
    }
}

/// The files to look at for a program, in the order of the search path's entries.
/// There are none where the search path is unset or empty.
pub open spec fn candidates(path: Option<Seq<char>>, name: Seq<char>) -> Seq<Seq<char>> {
    match path {
        None => Seq::empty(),
        Some(p) => if p.len() == 0 {
            Seq::empty()
        } else {
            Seq::new(split(p, ':').len(), |k: int| join_path(split(p, ':')[k], name))
        },
    }
}

/// Joins a directory and a file name into one path.
pub fn path_in(dir: &String, name: &String) -> (path: String)
    ensures
        path@ == join_path(dir@, name@),
{
    let d = dir.as_str();
    let n = name.as_str();
    if !n.is_empty() && n.get_char(0) == '/' {
        return name.clone();
    }
    let len = d.unicode_len();
    let mut path = dir.clone();
    if len > 0 && d.get_char(len - 1) != '/' {
        path.append("/");
        proof {
            reveal_strlit("/");
        }
    }
    path.append(n);
    path
}

/// Lists the files that may be the program `name`, one for each entry of the search
/// path `path`, which is `None` where the environment has none.
pub fn search_candidates(path: &Option<String>, name: &String) -> (found: Vec<String>)
    ensures
        found.deep_view() == candidates(path.deep_view(), name@),
{
    let mut found: Vec<String> = Vec::new();
    match path {
        None => {
        },
        Some(p) => {
            if !p.as_str().is_empty() {
                let dirs = split_text(p.as_str(), ':');
                let mut k: usize = 0;
                while k < dirs.len()
                    invariant
                        k <= dirs.len(),
                        found.len() == k,
                        forall|j: int|
                            0 <= j < k ==> (#[trigger] found[j])@ == join_path(dirs[j]@, name@),
                    decreases dirs.len() - k,
                {
                    found.push(path_in(&dirs[k], name));
                    k += 1;
                }
            }
        },
    }
    found
}

} // verus!
