//! Where the pool objects a board needs (parts, packages, footprints) are
//! looked for: the project's pools in order of priority and then path, and
//! in each pool the object's file by its kind and UUID.
use vstd::prelude::*;
use crate::drill::int_order;
use crate::forward_annotation::compare_strings;
use crate::geometry::PathOrder;
use crate::ids::{uuid_text, uuid_text_of};
use crate::ordering::{SortKeyed, is_key_sorted, order_then, stable_sort_by_key, stable_sorted};
use crate::render::push_chars;
use crate::tally::{lemma_text_lt_trans, lemma_text_order_flip, text_order};
use crate::text::{chars_of, string_from_chars};

verus! {

/// A pool the project references, with its search priority (lower first).
#[derive(Debug, Clone, PartialEq, Eq)]
pub struct PoolRef {
    pub path: String,
    pub priority: i32,
}

impl SortKeyed for PoolRef {
    /// Pools are searched by priority, then path.
    open spec fn key_rel(&self, other: &Self) -> PathOrder {
        order_then(int_order(self.priority as int, other.priority as int), text_order(self.path@, other.path@))
    }

    proof fn lemma_key_rel_flip(a: Self, b: Self) {
        lemma_text_order_flip(a.path@, b.path@);
    }

    proof fn lemma_key_le_trans(a: Self, b: Self, c: Self) {
        lemma_text_order_flip(a.path@, b.path@);
        lemma_text_order_flip(b.path@, c.path@);
        lemma_text_order_flip(a.path@, c.path@);
        if a.priority == b.priority && b.priority == c.priority {
            lemma_text_lt_trans(a.path@, b.path@, c.path@);
        }
    }

    fn compare_keys(&self, other: &Self) -> (o: PathOrder) {
        if self.priority < other.priority {
            PathOrder::Less
        } else if self.priority > other.priority {
            PathOrder::Greater
        } else {
            compare_strings(&self.path, &other.path)
        }
    }
}

/// The project's pools in the order they are searched: by priority, then
/// path, pools with equal priority and path keeping their order.
pub fn pool_search_order(refs: Vec<PoolRef>) -> (r: Vec<PoolRef>)
    ensures
        r@ == stable_sorted(refs@),
        is_key_sorted(r@),
{
    stable_sort_by_key(refs)
}

/// The file name of the pool object `id`: its UUID and `.json`.
pub open spec fn object_file_name(id: u128) -> Seq<char> {
    uuid_text_of(id) + seq!['.', 'j', 's', 'o', 'n']
}

/// Where a pool object is looked for in one pool.
#[derive(Debug, Clone, PartialEq, Eq)]
pub enum PoolObjectLocation {
    /// A pool at an absolute path: the object's file in the kind's
    /// directory under it.
    Absolute { pool_dir: String, kind_dir: String, file_name: String },
    /// A pool inside the project: the object's path relative to the project
    /// root, first among the project's materialized sources and then on disk.
    Relative { relative_path: String },
}

/// Where the object `id` of the kind `kind_dir` (`parts`, `packages`,
/// `footprints`, …) is looked for in the pool at `pool_path`: in that
/// directory when the pool path is absolute, at `{pool}/{kind}/{uuid}.json`
/// relative to the project root otherwise.
pub fn pool_object_location(pool_path: &str, absolute: bool, kind_dir: &str, id: u128) -> (r: PoolObjectLocation)
    ensures
        match r {
            PoolObjectLocation::Absolute { pool_dir, kind_dir: k, file_name } => absolute && pool_dir@ == pool_path@
                && k@ == kind_dir@ && file_name@ == object_file_name(id),
            PoolObjectLocation::Relative { relative_path } => !absolute && relative_path@ == pool_path@ + seq!['/']
                + kind_dir@ + seq!['/'] + object_file_name(id),
        },
{
    let id_text = uuid_text(id);
    let mut name: Vec<char> = chars_of(id_text.as_str());
    push_chars(&mut name, &['.', 'j', 's', 'o', 'n']);
    assert(name@ =~= object_file_name(id));
    if absolute {
        let p = chars_of(pool_path);
        let k = chars_of(kind_dir);
        PoolObjectLocation::Absolute {
            pool_dir: string_from_chars(p.as_slice()),
            kind_dir: string_from_chars(k.as_slice()),
            file_name: string_from_chars(name.as_slice()),
        }
    } else {
        let mut out: Vec<char> = chars_of(pool_path);
        out.push('/');
        let k = chars_of(kind_dir);
        push_chars(&mut out, k.as_slice());
        out.push('/');
        push_chars(&mut out, name.as_slice());
        assert(out@ =~= pool_path@ + seq!['/'] + kind_dir@ + seq!['/'] + object_file_name(id));
        PoolObjectLocation::Relative { relative_path: string_from_chars(out.as_slice()) }
    }
}

} // verus!
