//! The rules of the file explorer's tree: which directory entries are
//! listed, which files open as Markdown, and how entries keep their ids
//! from one scan to the next.

use crate::paste_path::ascii_lower;
use crate::text::chars_of;
use std::collections::HashMap;
use vstd::prelude::*;

verus! {

/// Directory names the explorer never lists.
pub open spec fn ignored_names() -> Seq<Seq<char>> {
    seq!["node_modules"@, "target"@, "dist"@, "build"@, ".git"@]
}

/// Whether two character sequences are equal.
fn same_text(a: &Vec<char>, b: &Vec<char>) -> (r: bool)
    ensures
        r == (a@ == b@),
{
    if a.len() != b.len() {
        return false;
    }
    let mut k: usize = 0;
    while k < a.len()
        invariant
            a@.len() == b@.len(),
            0 <= k <= a@.len(),
            forall|j: int| 0 <= j < k ==> a@[j] == b@[j],
        decreases a@.len() - k,
    {
        if a[k] != b[k] {
            return false;
        }
        k = k + 1;
    }
    assert(a@ =~= b@);
    true
}

/// Whether `name` is a build, dependency or version-control directory
/// that the explorer does not list.
pub fn is_ignored_entry(name: &str) -> (b: bool)
    ensures
        b == ignored_names().contains(name@),
{
    let chars = chars_of(name);
    let names: [&str; 5] = ["node_modules", "target", "dist", "build", ".git"];
    proof {
        reveal_strlit("node_modules");
        reveal_strlit("target");
        reveal_strlit("dist");
        reveal_strlit("build");
        reveal_strlit(".git");
    }
    let mut i: usize = 0;
    while i < 5
        invariant
            0 <= i <= 5,
            chars@ == name@,
            forall|j: int| 0 <= j < 5 ==> (#[trigger] names@[j])@ == ignored_names()[j],
            forall|j: int| 0 <= j < i ==> ignored_names()[j] != name@,
        decreases 5 - i,
    {
        let candidate = chars_of(names[i]);
        if same_text(&candidate, &chars) {
            assert(ignored_names()[i as int] == name@);
            return true;
        }
        i = i + 1;
    }
    assert(!ignored_names().contains(name@));
    false
}

/// Whether a scan skips the entry `name`: an ignored directory, or a
/// hidden entry (its name starts with `.`) while hidden entries are
/// hidden.
pub fn skips_entry(name: &str, hide_hidden: bool) -> (b: bool)
    ensures
        b == (ignored_names().contains(name@) || (hide_hidden && name@.len() > 0 && name@[0] == '.')),
{
    if is_ignored_entry(name) {
        return true;
    }
    if !hide_hidden {
        return false;
    }
    let chars = chars_of(name);
    chars.len() > 0 && chars[0] == '.'
}

/// Whether a file extension, compared without regard to ASCII case, marks
/// a Markdown file.
pub fn is_markdown_extension(ext: &str) -> (b: bool)
    ensures
        b == (ascii_lower(ext@) == "md"@ || ascii_lower(ext@) == "markdown"@),
{
    proof {
        reveal_strlit("md");
        reveal_strlit("markdown");
    }
    let chars = chars_of(ext);
    let mut lower: Vec<char> = Vec::new();
    let mut k: usize = 0;
    while k < chars.len()
        invariant
            0 <= k <= chars@.len(),
            chars@ == ext@,
            lower@ == ascii_lower(ext@.subrange(0, k as int)),
        decreases chars@.len() - k,
    {
        let c = chars[k];
        let l = if 'A' <= c && c <= 'Z' {
            ((c as u8) + 32) as char
        } else {
            c
        };
        lower.push(l);
        k = k + 1;
        assert(lower@ =~= ascii_lower(ext@.subrange(0, k as int)));
    }
    assert(ext@.subrange(0, chars@.len() as int) =~= ext@);
    let md = chars_of("md");
    let markdown = chars_of("markdown");
    same_text(&lower, &md) || same_text(&lower, &markdown)
}

/// The bits of `x` turned by half a word: its high and low halves swap.
fn swap_halves(x: u64) -> (r: u64)
    ensures
        r == ((x << 32u32) | (x >> 32u32)),
{
    (x << 32u32) | (x >> 32u32)
}

/// The stable id of a file from its device and inode numbers: none when
/// either is zero.
pub fn unix_file_id(dev: u64, ino: u64) -> (id: Option<u64>)
    ensures
        id == if dev != 0 && ino != 0 {
            Some(dev ^ ((ino << 32u32) | (ino >> 32u32)))
        } else {
            None
        },
{
    if dev != 0 && ino != 0 {
        Some(dev ^ swap_halves(ino))
    } else {
        None
    }
}

/// The stable id of a file from its volume serial number and the two
/// halves of its file index.
pub fn windows_file_id(volume_serial: u32, index_high: u32, index_low: u32) -> (id: u64)
    ensures
        ({
            let index = ((index_high as u64) << 32u32) | (index_low as u64);
            id == (volume_serial as u64) ^ ((index << 32u32) | (index >> 32u32))
        }),
{
    let index = ((index_high as u64) << 32) | (index_low as u64);
    (volume_serial as u64) ^ swap_halves(index)
}

/// The id an entry keeps in a new scan: the root keeps its id; another
/// entry keeps the id its path had, else the id its file had (a rename or
/// move). `None` means that the entry needs a fresh id from the counter.
pub fn stable_entry_id(
    is_root: bool,
    root_id: u64,
    id_for_path: Option<u64>,
    id_for_inode: Option<u64>,
) -> (id: Option<u64>)
    ensures
        id == if is_root {
            Some(root_id)
        } else {
            match id_for_path {
                Some(p) => Some(p),
                None => id_for_inode,
            }
        },
{
    if is_root {
        Some(root_id)
    } else {
        match id_for_path {
            Some(p) => Some(p),
            None => id_for_inode,
        }
    }
}

/// An entry of a new scan: the key of its path (entries are given in path
/// order) and its file id, if the platform gives one.
#[derive(Clone, Copy, Debug, PartialEq, Eq, Structural)]
pub struct ScanEntry {
    pub path_key: u64,
    pub inode: Option<u64>,
}

/// The id maps of a scan: path key to id, id to path key, file id to id.
pub struct IdIndex {
    pub id_for_path: HashMap<u64, u64>,
    pub path_for_id: HashMap<u64, u64>,
    pub inode_to_id: HashMap<u64, u64>,
}

/// Ids given to the entries of a scan so far, the counter, and the id
/// maps built so far.
pub struct AssignView {
    pub ids: Seq<u64>,
    pub next: u64,
    pub id_for_path: Map<u64, u64>,
    pub path_for_id: Map<u64, u64>,
    pub inode_to_id: Map<u64, u64>,
}

/// The counter after drawing one id: it counts up, wrapping at the top.
pub open spec fn bumped(next: u64) -> u64 {
    if next == u64::MAX {
        0
    } else {
        (next + 1) as u64
    }
}

/// The id that a scan entry reuses: the root's id for the root, else the
/// id its path had, else the id its file had.
pub open spec fn reused_id(
    old_path: Map<u64, u64>,
    old_inode: Map<u64, u64>,
    e: ScanEntry,
    root_key: u64,
    root_id: u64,
) -> Option<u64> {
    if e.path_key == root_key {
        Some(root_id)
    } else if old_path.contains_key(e.path_key) {
        Some(old_path[e.path_key])
    } else {
        match e.inode {
            Some(i) => if old_inode.contains_key(i) {
                Some(old_inode[i])
            } else {
                None
            },
            None => None,
        }
    }
}

/// The first `k` entries of a scan given their ids: each reuses an id as
/// `reused_id` says, or draws the next one from the counter; the new maps
/// record each entry's id.
pub open spec fn assign_upto(
    old_path: Map<u64, u64>,
    old_inode: Map<u64, u64>,
    entries: Seq<ScanEntry>,
    k: nat,
    next: u64,
    root_key: u64,
    root_id: u64,
) -> AssignView
    decreases k,
{
    if k == 0 || k > entries.len() {
        AssignView {
            ids: Seq::empty(),
            next,
            id_for_path: Map::empty(),
            path_for_id: Map::empty(),
            inode_to_id: Map::empty(),
        }
    } else {
        let st = assign_upto(old_path, old_inode, entries, (k - 1) as nat, next, root_key, root_id);
        let e = entries[k - 1];
        let (id, counter) = match reused_id(old_path, old_inode, e, root_key, root_id) {
            Some(id) => (id, st.next),
            None => (st.next, bumped(st.next)),
        };
        AssignView {
            ids: st.ids.push(id),
            next: counter,
            id_for_path: st.id_for_path.insert(e.path_key, id),
            path_for_id: st.path_for_id.insert(id, e.path_key),
            inode_to_id: match e.inode {
                Some(i) => st.inode_to_id.insert(i, id),
                None => st.inode_to_id,
            },
        }
    }
}

/// Gives the entries of a new scan their ids: the root keeps `root_id`;
/// another entry keeps the id its path had in `old`, else the id its file
/// had (a rename or move), else takes the next id of the counter
/// `next_id`. Returns the ids in entry order, the counter after the scan
/// and the new id maps.
pub fn assign_stable_ids(
    old: &IdIndex,
    entries: &Vec<ScanEntry>,
    next_id: u64,
    root_key: u64,
    root_id: u64,
) -> (r: (Vec<u64>, u64, IdIndex))
    ensures
        ({
            let v = assign_upto(
                old.id_for_path@,
                old.inode_to_id@,
                entries@,
                entries@.len(),
                next_id,
                root_key,
                root_id,
            );
            &&& r.0@ == v.ids
            &&& r.1 == v.next
            &&& r.2.id_for_path@ == v.id_for_path
            &&& r.2.path_for_id@ == v.path_for_id
            &&& r.2.inode_to_id@ == v.inode_to_id
        }),
{
    broadcast use vstd::std_specs::hash::group_hash_axioms;

    let ghost op = old.id_for_path@;
    let ghost oi = old.inode_to_id@;
    let mut ids: Vec<u64> = Vec::new();
    let mut next = next_id;
    let mut out = IdIndex { id_for_path: HashMap::new(), path_for_id: HashMap::new(), inode_to_id: HashMap::new() };
    let mut k: usize = 0;
    while k < entries.len()
        invariant
            0 <= k <= entries@.len(),
            op == old.id_for_path@,
            oi == old.inode_to_id@,
            ({
                let v = assign_upto(op, oi, entries@, k as nat, next_id, root_key, root_id);
                &&& ids@ == v.ids
                &&& next == v.next
                &&& out.id_for_path@ == v.id_for_path
                &&& out.path_for_id@ == v.path_for_id
                &&& out.inode_to_id@ == v.inode_to_id
            }),
        decreases entries@.len() - k,
    {
        let e = entries[k];
        let by_path = match old.id_for_path.get(&e.path_key) {
            Some(id) => Some(*id),
            None => None,
        };
        let by_inode = match e.inode {
            Some(i) => match old.inode_to_id.get(&i) {
                Some(id) => Some(*id),
                None => None,
            },
            None => None,
        };
        let reused = stable_entry_id(e.path_key == root_key, root_id, by_path, by_inode);
        assert(reused == reused_id(op, oi, e, root_key, root_id));
        let id = match reused {
            Some(id) => id,
            None => {
                let fresh = next;
                next = if next == u64::MAX { 0 } else { next + 1 };
                fresh
            },
        };
        ids.push(id);
        out.id_for_path.insert(e.path_key, id);
        out.path_for_id.insert(id, e.path_key);
        match e.inode {
            Some(i) => {
                out.inode_to_id.insert(i, id);
            },
            None => {},
        }
        k = k + 1;
    }
    (ids, next, out)
}

/// Ids given earlier in a scan stay as they were.
proof fn lemma_assign_prefix(
    old_path: Map<u64, u64>,
    old_inode: Map<u64, u64>,
    entries: Seq<ScanEntry>,
    k: nat,
    next: u64,
    root_key: u64,
    root_id: u64,
)
    requires
        k <= entries.len(),
    ensures
        assign_upto(old_path, old_inode, entries, k, next, root_key, root_id).ids.len() == k,
        forall|i: int|
            0 <= i < k ==> #[trigger] assign_upto(old_path, old_inode, entries, k, next, root_key, root_id).ids[i]
                == assign_upto(old_path, old_inode, entries, (i + 1) as nat, next, root_key, root_id).ids[i],
    decreases k,
{
    if k > 0 {
        lemma_assign_prefix(old_path, old_inode, entries, (k - 1) as nat, next, root_key, root_id);
    }
}

/// Ids survive a rescan: the root keeps its id, and an entry whose path
/// the previous scan knew keeps that path's id.
pub proof fn lemma_rescan_keeps_ids(
    old_path: Map<u64, u64>,
    old_inode: Map<u64, u64>,
    entries: Seq<ScanEntry>,
    next: u64,
    root_key: u64,
    root_id: u64,
    i: int,
)
    requires
        0 <= i < entries.len(),
    ensures
        ({
            let ids = assign_upto(old_path, old_inode, entries, entries.len(), next, root_key, root_id).ids;
            &&& entries[i].path_key == root_key ==> ids[i] == root_id
            &&& entries[i].path_key != root_key && old_path.contains_key(entries[i].path_key) ==> ids[i]
                == old_path[entries[i].path_key]
        }),
{
    lemma_assign_prefix(old_path, old_inode, entries, entries.len(), next, root_key, root_id);
    lemma_assign_prefix(old_path, old_inode, entries, (i + 1) as nat, next, root_key, root_id);
}

} // verus!
