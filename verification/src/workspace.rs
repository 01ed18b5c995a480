//! Where things live: a workspace is a root folder plus the effective
//! config naming the five category folders under it.

use vstd::prelude::*;
use crate::category::{Category, category_index};
use crate::config::Config;
use crate::text::{chars_of, concat2, concat3};

verus! {

/// `rest` appended to the path `base` as `PathBuf::push` does: an absolute
/// `rest` (one starting with `/`) replaces `base`; otherwise a `/` goes
/// between them unless `base` is empty or already ends with one.
pub open spec fn join_path(base: Seq<char>, rest: Seq<char>) -> Seq<char> {
    if rest.len() > 0 && rest[0] == '/' {
        rest
    } else if base.len() == 0 || base.last() == '/' {
        base + rest
    } else {
        base + "/"@ + rest
    }
}

/// A PARA workspace: its root folder (as a `/`-separated path) and the
/// effective config.
#[derive(Debug, Clone, PartialEq, Eq)]
pub struct Workspace {
    pub root: String,
    pub config: Config,
}

impl Workspace {
    /// The folder of `category` under the root.
    pub open spec fn category_dir_spec(&self, c: Category) -> Seq<char> {
        join_path(self.root@, self.config.dir(category_index(c)))
    }

    /// The folder of `category` under the root, named by the config.
    pub fn category_dir(&self, category: Category) -> (r: String)
        ensures
            r@ == self.category_dir_spec(category),
    {
        let i = category.index();
        join(self.root.as_str(), self.config.category_dirs[i].as_str())
    }
}

/// Joins two path pieces as `PathBuf::join` does (see `join_path`).
pub fn join(base: &str, rest: &str) -> (r: String)
    ensures
        r@ == join_path(base@, rest@),
{
    let rv = chars_of(rest);
    if rv.len() > 0 && rv[0] == '/' {
        return rest.to_owned();
    }
    let bv = chars_of(base);
    if bv.len() == 0 || bv[bv.len() - 1] == '/' {
        return concat2(base, rest);
    }
    let slash = "/";
    proof {
        reveal_strlit("/");
    }
    concat3(base, slash, rest)
}

/// What is known of one folder while looking for the workspace root: does
/// it hold a local config file, and which of the five category folders
/// (in `Category::index` order) exist under it.
#[derive(Debug, Clone, Copy, PartialEq, Eq)]
pub struct FolderFacts {
    pub has_config: bool,
    pub dirs: [bool; 5],
}

/// A folder is a workspace root when it holds a local config or all five
/// category folders.
pub open spec fn is_root_spec(f: FolderFacts) -> bool {
    f.has_config || (forall|i: int| 0 <= i < 5 ==> #[trigger] f.dirs@[i])
}

/// Whether a folder with these facts is a workspace root.
pub fn is_root(f: &FolderFacts) -> (r: bool)
    ensures
        r == is_root_spec(*f),
{
    if f.has_config {
        return true;
    }
    let mut i: usize = 0;
    while i < 5
        invariant
            i <= 5,
            !f.has_config,
            forall|j: int| 0 <= j < i ==> #[trigger] f.dirs@[j],
        decreases 5 - i,
    {
        if !f.dirs[i] {
            return false;
        }
        i = i + 1;
    }
    true
}

/// Walking up from a starting folder, `chain[0]` being the start and each
/// next entry its parent: the position of the first root, if any.
pub fn discover(chain: &Vec<FolderFacts>) -> (r: Option<usize>)
    ensures
        match r {
            Some(k) => k < chain.len() && is_root_spec(chain@[k as int]) && forall|j: int|
                0 <= j < k ==> !is_root_spec(#[trigger] chain@[j]),
            None => forall|j: int| 0 <= j < chain.len() ==> !is_root_spec(#[trigger] chain@[j]),
        },
{
    let mut k: usize = 0;
    while k < chain.len()
        invariant
            k <= chain.len(),
            forall|j: int| 0 <= j < k ==> !is_root_spec(#[trigger] chain@[j]),
        decreases chain.len() - k,
    {
        if is_root(&chain[k]) {
            return Some(k);
        }
        k = k + 1;
    }
    None
}

} // verus!
