//! Selection of the files that go into a bundle. A directory walk hands over
//! each regular file as the list of its path segments relative to the root;
//! files under a hidden directory are left out and the rest are joined with
//! `/`, in walk order.

use vstd::prelude::*;
use vstd::string::*;

verus! {

/// A name that starts with the hidden-file marker `.`.
pub open spec fn is_hidden(name: Seq<char>) -> bool {
    name.len() > 0 && name[0] == '.'
}

/// Some directory segment of the file path `segs` (every segment but the
/// last) is hidden.
pub open spec fn in_hidden_dir(segs: Seq<Seq<char>>) -> bool {
    exists|i: int| 0 <= i < segs.len() - 1 && is_hidden(#[trigger] segs[i])
}

/// The segments joined with `/`.
pub open spec fn join_path(segs: Seq<Seq<char>>) -> Seq<char>
    decreases segs.len(),
{
    if segs.len() == 0 {
        Seq::empty()
    } else if segs.len() == 1 {
        segs[0]
    } else {
        join_path(segs.drop_last()) + seq!['/'] + segs.last()
    }
}

/// The view of a walk's listing: each file as its segments.
pub open spec fn listing_view(listing: Seq<Vec<String>>) -> Seq<Seq<Seq<char>>> {
    listing.map_values(|e: Vec<String>| e@.map_values(|s: String| s@))
}

/// The relative paths that a bundle takes from a listing, in order.
pub open spec fn visible_paths(listing: Seq<Seq<Seq<char>>>) -> Seq<Seq<char>>
    decreases listing.len(),
{
    if listing.len() == 0 {
        Seq::empty()
    } else if in_hidden_dir(listing.last()) {
        visible_paths(listing.drop_last())
    } else {
        visible_paths(listing.drop_last()).push(join_path(listing.last()))
    }
}

/// Whether a directory of this name is left out of a bundle.
pub fn is_hidden_name(name: &str) -> (r: bool)
    ensures
        r == is_hidden(name@),
{
    name.unicode_len() > 0 && name.get_char(0) == '.'
}

/// Joins path segments with `/`.
pub fn join_segments(segs: &Vec<String>) -> (r: String)
    ensures
        r@ == join_path(segs@.map_values(|s: String| s@)),
{
    let ghost v = segs@.map_values(|s: String| s@);
    let mut out = String::new();
    let mut i: usize = 0;
    while i < segs.len()
        invariant
            i <= segs@.len(),
            v == segs@.map_values(|s: String| s@),
            out@ == join_path(v.take(i as int)),
        decreases segs@.len() - i,
    {
        proof {
            reveal_strlit("/");
            assert(v.take(i + 1).drop_last() =~= v.take(i as int));
        }
        if i > 0 {
            out.append("/");
        }
        out.append(segs[i].as_str());
        proof {
            if i == 0 {
                assert(out@ =~= v.take(1)[0]);
            } else {
                assert(out@ =~= join_path(v.take(i as int)) + seq!['/'] + v.take(i + 1).last());
            }
        }
        i = i + 1;
    }
    assert(v.take(segs@.len() as int) =~= v);
    out
}

/// Whether some directory segment of a file's path is hidden.
pub fn under_hidden_dir(segs: &Vec<String>) -> (r: bool)
    ensures
        r == in_hidden_dir(segs@.map_values(|s: String| s@)),
{
    let ghost v = segs@.map_values(|s: String| s@);
    let mut i: usize = 0;
    while i < segs.len() && segs.len() - i > 1
        invariant
            i <= segs@.len(),
            v == segs@.map_values(|s: String| s@),
            forall|j: int| 0 <= j < i ==> !is_hidden(#[trigger] v[j]),
        decreases segs@.len() - i,
    {
        assert(v[i as int] == segs@[i as int]@);
        if is_hidden_name(segs[i].as_str()) {
            assert(is_hidden(v[i as int]));
            return true;
        }
        i = i + 1;
    }
    false
}

/// The relative paths of the files of a walk that a bundle takes: those not
/// under a hidden directory, joined with `/`, in walk order.
pub fn visible_files(listing: &Vec<Vec<String>>) -> (r: Vec<String>)
    ensures
        r@.map_values(|s: String| s@) == visible_paths(listing_view(listing@)),
{
    let ghost lv = listing_view(listing@);
    let mut out: Vec<String> = Vec::new();
    let mut i: usize = 0;
    while i < listing.len()
        invariant
            i <= listing@.len(),
            lv == listing_view(listing@),
            out@.map_values(|s: String| s@) == visible_paths(lv.take(i as int)),
        decreases listing@.len() - i,
    {
        proof {
            assert(lv.take(i + 1).drop_last() =~= lv.take(i as int));
            assert(lv.take(i + 1).last() == lv[i as int]);
        }
        assert(listing@[i as int]@.map_values(|s: String| s@) == lv[i as int]);
        if !under_hidden_dir(&listing[i]) {
            let p = join_segments(&listing[i]);
            let ghost before = out@;
            out.push(p);
            assert(listing@[i as int]@.map_values(|s: String| s@) == lv[i as int]);
            assert(out@.map_values(|s: String| s@) =~= before.map_values(|s: String| s@).push(
                join_path(lv[i as int]),
            ));
        }
        i = i + 1;
    }
    assert(lv.take(listing@.len() as int) =~= lv);
    out
}

/// No path that a bundle takes from a listing comes from a file under a
/// hidden directory: each is the join of some listed file that is not.
pub proof fn lemma_hidden_excluded(listing: Seq<Seq<Seq<char>>>)
    ensures
        forall|k: int|
            0 <= k < visible_paths(listing).len() ==> exists|j: int|
                0 <= j < listing.len() && !in_hidden_dir(#[trigger] listing[j]) && join_path(
                    listing[j],
                ) == #[trigger] visible_paths(listing)[k],
    decreases listing.len(),
{
    if listing.len() > 0 {
        let init = listing.drop_last();
        lemma_hidden_excluded(init);
        assert forall|k: int| 0 <= k < visible_paths(listing).len() implies exists|j: int|
            0 <= j < listing.len() && !in_hidden_dir(#[trigger] listing[j]) && join_path(
                listing[j],
            ) == #[trigger] visible_paths(listing)[k] by {
            if k < visible_paths(init).len() {
                let j = choose|j: int|
                    0 <= j < init.len() && !in_hidden_dir(#[trigger] init[j]) && join_path(
                        init[j],
                    ) == #[trigger] visible_paths(init)[k];
                assert(listing[j] == init[j]);
            } else {
                assert(listing[listing.len() - 1] == listing.last());
            }
        }
    }
}

/// A name that can stand as one directory entry: not empty, without `/`,
/// and neither `.` nor `..`.
pub open spec fn is_plain_name(s: Seq<char>) -> bool {
    &&& s.len() > 0
    &&& forall|i: int| 0 <= i < s.len() ==> #[trigger] s[i] != '/'
    &&& !(s.len() == 1 && s[0] == '.')
    &&& !(s.len() == 2 && s[0] == '.' && s[1] == '.')
}

/// Whether `name` can name the directory a theme is extracted into.
pub fn plain_name(name: &str) -> (r: bool)
    ensures
        r == is_plain_name(name@),
{
    let n = name.unicode_len();
    if n == 0 {
        return false;
    }
    let mut i: usize = 0;
    while i < n
        invariant
            n == name@.len(),
            i <= n,
            forall|j: int| 0 <= j < i ==> #[trigger] name@[j] != '/',
        decreases n - i,
    {
        if name.get_char(i) == '/' {
            return false;
        }
        i = i + 1;
    }
    let first_dot = name.get_char(0) == '.';
    if n == 1 && first_dot {
        return false;
    }
    if n == 2 && first_dot && name.get_char(1) == '.' {
        return false;
    }
    true
}

} // verus!
