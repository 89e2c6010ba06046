//! The recent-install history: newest first, one entry per theme name, at
//! most `RECENT_CAP` entries.

use vstd::prelude::*;
use crate::types::RecentTheme;

verus! {

/// How many entries the history keeps.
pub const RECENT_CAP: usize = 4;

/// The abstract value of a history entry.
pub open spec fn recent_view(t: RecentTheme) -> (Seq<char>, Seq<char>, Seq<char>, u64) {
    (t.name@, t.author@, t.description@, t.installed_at)
}

/// The entries of `l` whose name is not `name`, in order.
pub open spec fn other_names(
    l: Seq<(Seq<char>, Seq<char>, Seq<char>, u64)>,
    name: Seq<char>,
) -> Seq<(Seq<char>, Seq<char>, Seq<char>, u64)>
    decreases l.len(),
{
    if l.len() == 0 {
        Seq::empty()
    } else if l.last().0 == name {
        other_names(l.drop_last(), name)
    } else {
        other_names(l.drop_last(), name).push(l.last())
    }
}

/// The history after recording `e`: `e` first, then the older entries of
/// other names, cut to `RECENT_CAP`.
pub open spec fn recorded(
    l: Seq<(Seq<char>, Seq<char>, Seq<char>, u64)>,
    e: (Seq<char>, Seq<char>, Seq<char>, u64),
) -> Seq<(Seq<char>, Seq<char>, Seq<char>, u64)> {
    let all = seq![e] + other_names(l, e.0);
    if all.len() <= RECENT_CAP {
        all
    } else {
        all.take(RECENT_CAP as int)
    }
}

impl RecentTheme {
    /// A copy of this entry.
    pub fn duplicate(&self) -> (r: RecentTheme)
        ensures
            recent_view(r) == recent_view(*self),
    {
        RecentTheme {
            name: self.name.clone(),
            author: self.author.clone(),
            description: self.description.clone(),
            installed_at: self.installed_at,
        }
    }
}

/// Records an installation in the history.
pub fn record_recent(history: &Vec<RecentTheme>, entry: RecentTheme) -> (r: Vec<RecentTheme>)
    ensures
        r@.map_values(|t: RecentTheme| recent_view(t)) == recorded(
            history@.map_values(|t: RecentTheme| recent_view(t)),
            recent_view(entry),
        ),
{
    let ghost hv = history@.map_values(|t: RecentTheme| recent_view(t));
    let ghost ev = recent_view(entry);
    let mut out: Vec<RecentTheme> = Vec::new();
    let name = entry.name.clone();
    out.push(entry);
    let mut i: usize = 0;
    while i < history.len()
        invariant
            i <= history@.len(),
            hv == history@.map_values(|t: RecentTheme| recent_view(t)),
            name@ == ev.0,
            out@.map_values(|t: RecentTheme| recent_view(t)) == seq![ev] + other_names(
                hv.take(i as int),
                ev.0,
            ),
        decreases history@.len() - i,
    {
        proof {
            assert(hv.take(i + 1).drop_last() =~= hv.take(i as int));
            assert(hv.take(i + 1).last() == recent_view(history@[i as int]));
        }
        if history[i].name != name {
            let t = history[i].duplicate();
            let ghost before = out@;
            out.push(t);
            assert(out@.map_values(|t: RecentTheme| recent_view(t)) =~= before.map_values(
                |t: RecentTheme| recent_view(t),
            ).push(recent_view(t)));
        }
        i = i + 1;
    }
    assert(hv.take(history@.len() as int) =~= hv);
    out.truncate(RECENT_CAP);
    assert(out@.map_values(|t: RecentTheme| recent_view(t)) =~= recorded(hv, ev));
    out
}

} // verus!
