//! Where the files of the application stand.

use vstd::prelude::*;

verus! {

/// The home directory of the user is not known.
#[derive(Debug, PartialEq, Eq)]
pub struct HomeNotSet;

impl HomeNotSet {
    /// What is told to the user.
    pub fn message(&self) -> (message: String)
        ensures
            message@ == "$HOME is not set"@,
    {
        "$HOME is not set".to_owned()
    }
}

/// A path with one more part. An empty path, and one that ends in a slash, get no slash.
pub open spec fn joined(base: Seq<char>, part: Seq<char>) -> Seq<char> {
    if base.len() == 0 || base.last() == '/' {
        base + part
    } else {
        base + "/"@ + part
    }
}

/// Adds a part to a path.
pub fn join(base: &str, part: &str) -> (path: String)
    ensures
        path@ == joined(base@, part@),
{
    let mut last: Option<char> = None;
    for c in it: base.chars()
        invariant
            it.seq() == base@,
            match last {
                Some(l) => it.index() > 0 && l == base@[it.index() - 1],
                None => it.index() == 0,
            },
    {
        last = Some(c);
    }
    let mut path = base.to_owned();
    match last {
        Some(c) => {
            if c != '/' {
                path.append("/");
            }
        },
        None => {},
    }
    path.append(part);
    assert(path@ == joined(base@, part@));
    path
}

/// A file among those that the application keeps below the home directory.
pub open spec fn support_path(home: Seq<char>, name: Seq<char>) -> Seq<char> {
    joined(joined(joined(joined(home, "Library"@), "Application Support"@), "bear-anki"@), name)
}

/// The path of a file that the application keeps below the home directory.
pub fn support_file(home: Option<&str>, name: &str) -> (path: Result<String, HomeNotSet>)
    ensures
        match (home, path) {
            (Some(h), Ok(p)) => p@ == support_path(h@, name@),
            (None, Err(_)) => true,
            _ => false,
        },
{
    match home {
        None => Err(HomeNotSet),
        Some(h) => {
            let library = join(h, "Library");
            let support = join(library.as_str(), "Application Support");
            let folder = join(support.as_str(), "bear-anki");
            Ok(join(folder.as_str(), name))
        },
    }
}

} // verus!
