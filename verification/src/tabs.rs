//! Entries of the tab selector: selectable tabs, numbered in order of
//! appearance, interleaved with category headings that select nothing.

use vstd::prelude::*;

verus! {

/// One entry of the tab selector.
#[derive(Clone, Copy)]
pub enum Entry {
    Tab(&'static str),
    Category(&'static str),
}

/// Number of `Tab` entries among the first `i` entries.
pub open spec fn tabs_before(entries: Seq<Entry>, i: int) -> int
    decreases i,
{
    if i <= 0 {
        0
    } else {
        tabs_before(entries, i - 1) + if entries[i - 1] is Tab {
            1int
        } else {
            0int
        }
    }
}

/// The tab index that each entry selects: `Tab` entries are numbered in
/// order of appearance, category headings select nothing.
pub fn tab_indices(entries: &Vec<Entry>) -> (r: Vec<Option<usize>>)
    ensures
        r@.len() == entries@.len(),
        forall|i: int|
            0 <= i < entries@.len() ==> r@[i] == (if entries@[i] is Tab {
                Some(tabs_before(entries@, i) as usize)
            } else {
                None::<usize>
            }),
{
    let n = entries.len();
    let mut r: Vec<Option<usize>> = Vec::new();
    let mut tab_id: usize = 0;
    let mut i: usize = 0;
    while i < n
        invariant
            n == entries@.len(),
            i <= n,
            r@.len() == i,
            tab_id as int == tabs_before(entries@, i as int),
            tab_id <= i,
            forall|j: int|
                0 <= j < i ==> r@[j] == (if entries@[j] is Tab {
                    Some(tabs_before(entries@, j) as usize)
                } else {
                    None::<usize>
                }),
        decreases n - i,
    {
        match entries[i] {
            Entry::Tab(_) => {
                r.push(Some(tab_id));
                tab_id = tab_id + 1;
            },
            Entry::Category(_) => {
                r.push(None);
            },
        }
        i = i + 1;
    }
    r
}

} // verus!
