//! Checks on keymap descriptions.

use vstd::prelude::*;
use crate::text::{chars_of, push_str, str_equal, string_from_chars, string_views};

verus! {

/// The index of the first id that repeats an earlier one, or `-1`.
pub open spec fn first_repeat(ids: Seq<Seq<char>>) -> int
    decreases ids.len(),
{
    if ids.len() == 0 {
        -1
    } else {
        let r = first_repeat(ids.drop_last());
        if r >= 0 {
            r
        } else if ids.drop_last().contains(ids.last()) {
            ids.len() - 1
        } else {
            -1
        }
    }
}

/// Checks that no keymap entry id occurs twice; the first repeated id is
/// reported.
pub fn validate_unique_ids(ids: &Vec<String>) -> (r: Result<(), String>)
    ensures
        ({
            let v = string_views(ids@);
            let k = first_repeat(v);
            if k >= 0 {
                r matches Err(e) && e@ == "duplicate keymap entry id "@ + v[k]
            } else {
                r is Ok
            }
        }),
{
    let ghost v = string_views(ids@);
    let mut i: usize = 0;
    while i < ids.len()
        invariant
            i <= ids.len(),
            v == string_views(ids@),
            first_repeat(v.subrange(0, i as int)) < 0,
        decreases ids.len() - i,
    {
        let mut j: usize = 0;
        while j < i
            invariant
                j <= i,
                i < ids.len(),
                v == string_views(ids@),
                first_repeat(v.subrange(0, i as int)) < 0,
                forall|q: int| 0 <= q < j ==> v[q] != v[i as int],
            decreases i - j,
        {
            if str_equal(ids[j].as_str(), ids[i].as_str()) {
                proof {
                    let pre = v.subrange(0, i as int);
                    let post = v.subrange(0, i + 1);
                    assert(post.drop_last() =~= pre);
                    assert(pre[j as int] == v[i as int]);
                    assert(pre.contains(post.last()));
                    assert(first_repeat(post) == i);
                    lemma_first_repeat_prefix(v, i + 1);
                    assert(v[i as int] == ids@[i as int]@);
                }
                let mut msg = chars_of("duplicate keymap entry id ");
                push_str(&mut msg, ids[i].as_str());
                return Err(string_from_chars(&msg));
            }
            j = j + 1;
        }
        proof {
            let pre = v.subrange(0, i as int);
            let post = v.subrange(0, i + 1);
            assert(post.drop_last() =~= pre);
            assert(!pre.contains(post.last())) by {
                if pre.contains(post.last()) {
                    let w = choose|w: int| 0 <= w < pre.len() && pre[w] == post.last();
                    assert(v[w] == v[i as int]);
                }
            }
        }
        i = i + 1;
    }
    assert(v.subrange(0, ids.len() as int) =~= v);
    Ok(())
}

/// A repeat found in a prefix is the first repeat of the whole list.
proof fn lemma_first_repeat_prefix(v: Seq<Seq<char>>, i: int)
    requires
        0 <= i <= v.len(),
        first_repeat(v.subrange(0, i)) >= 0,
    ensures
        first_repeat(v) == first_repeat(v.subrange(0, i)),
    decreases v.len() - i,
{
    if i < v.len() {
        assert(v.subrange(0, i + 1).drop_last() =~= v.subrange(0, i));
        lemma_first_repeat_prefix(v, i + 1);
    } else {
        assert(v.subrange(0, i) =~= v);
    }
}

/// Ids are accepted exactly when no two are equal, and a reported id
/// does occur twice, the second time at the reported position.
pub proof fn lemma_first_repeat_iff_duplicate(ids: Seq<Seq<char>>)
    ensures
        first_repeat(ids) < 0 <==> (forall|i: int, j: int| 0 <= i < j < ids.len() ==> ids[i] != ids[j]),
        first_repeat(ids) >= 0 ==> first_repeat(ids) < ids.len()
            && exists|i: int| 0 <= i < first_repeat(ids) && #[trigger] ids[i] == ids[first_repeat(ids)],
    decreases ids.len(),
{
    if ids.len() > 0 {
        let init = ids.drop_last();
        lemma_first_repeat_iff_duplicate(init);
        let r = first_repeat(init);
        if r >= 0 {
            let i = choose|i: int| 0 <= i < r && init[i] == init[r];
            assert(ids[i] == ids[r]);
        } else if init.contains(ids.last()) {
            let w = choose|w: int| 0 <= w < init.len() && init[w] == ids.last();
            assert(ids[w] == ids[ids.len() - 1]);
        } else {
            assert forall|i: int, j: int| 0 <= i < j < ids.len() implies ids[i] != ids[j] by {
                if j < ids.len() - 1 {
                    assert(init[i] == ids[i] && init[j] == ids[j]);
                } else {
                    assert(init[i] == ids[i]);
                    if ids[i] == ids[j] {
                        assert(init.contains(ids.last()));
                    }
                }
            }
        }
    }
}

} // verus!
