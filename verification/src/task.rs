//! The background-task lifecycle manager.
//!
//! Asynchronous units are grouped under string tags so that one `dispose`
//! call cancels everything a connection or a pipeline started.  The manager
//! tracks handles by opaque tokens; its owner maps each token to the real
//! join handle and reports, at `add` time, which tracked handles have
//! already finished so they can be pruned.
use vstd::prelude::*;

verus! {

/// Keeps the live handles: entry `i` survives exactly when `fin[i]` is
/// false.
pub open spec fn retain_live(hs: Seq<u64>, fin: Seq<bool>) -> Seq<u64>
    recommends
        hs.len() == fin.len(),
    decreases hs.len(),
{
    if hs.len() == 0 {
        Seq::empty()
    } else {
        retain_live(hs.drop_last(), fin.drop_last()) + (if fin.len() >= 1 && fin.last() {
            Seq::empty()
        } else {
            seq![hs.last()]
        })
    }
}

/// The task-group table: a growable list of handle tokens per tag.
pub struct TaskManager {
    /// Each tag at most once, with the handles registered under it.
    pub groups: Vec<(String, Vec<u64>)>,
}

impl TaskManager {
    /// Tags are unique.
    pub open spec fn wf(self) -> bool {
        forall|i: int, j: int|
            0 <= i < j < self.groups@.len() ==> (#[trigger] self.groups@[i]).0@ != (
            #[trigger] self.groups@[j]).0@
    }

    /// Whether some handles are tracked under `tag`.
    pub open spec fn has_tag(self, tag: Seq<char>) -> bool {
        exists|i: int| 0 <= i < self.groups@.len() && (#[trigger] self.groups@[i]).0@ == tag
    }

    /// The handles tracked under `tag`; empty when the tag is absent.
    pub open spec fn handles_of(self, tag: Seq<char>) -> Seq<u64> {
        if self.has_tag(tag) {
            let i = choose|i: int|
                0 <= i < self.groups@.len() && (#[trigger] self.groups@[i]).0@ == tag;
            self.groups@[i].1@
        } else {
            Seq::empty()
        }
    }

    /// An empty table.
    pub fn new() -> (t: Self)
        ensures
            t.wf(),
            t.groups@.len() == 0,
            forall|tag: Seq<char>| !t.has_tag(tag),
    {
        TaskManager { groups: Vec::new() }
    }

    /// Tracks `handle` under `tag`, first pruning the handles of that tag
    /// that their owner reports finished (`finished[i]` speaks of the `i`th
    /// tracked handle): long-lived tags do not grow without bound.
    #[verifier::loop_isolation(false)]
    pub fn add(&mut self, tag: &str, handle: u64, finished: &Vec<bool>) -> (pruned: Vec<u64>)
        requires
            old(self).wf(),
            finished@.len() == old(self).handles_of(tag@).len(),
        ensures
            final(self).wf(),
            final(self).has_tag(tag@),
            final(self).handles_of(tag@) == retain_live(
                old(self).handles_of(tag@),
                finished@,
            ).push(handle),
            forall|t2: Seq<char>|
                t2 != tag@ ==> #[trigger] final(self).has_tag(t2) == old(self).has_tag(t2),
            forall|t2: Seq<char>|
                t2 != tag@ ==> #[trigger] final(self).handles_of(t2) == old(self).handles_of(t2),
            pruned@ == pruned_of(old(self).handles_of(tag@), finished@),
    {
        let ghost oldg = self.groups@;
        let tag_string = String::from_str(tag);
        let mut i: usize = 0;
        while i < self.groups.len()
            invariant
                0 <= i <= self.groups@.len(),
                forall|j: int| 0 <= j < i ==> (#[trigger] self.groups@[j]).0@ != tag@,
                self == old(self),
                tag_string@ == tag@,
            decreases self.groups@.len() - i,
        {
            if self.groups[i].0 == tag_string {
                let ghost idx = i as int;
                proof {
                    lemma_first_tag(self.groups@, tag@, idx);
                    assert(old(self).handles_of(tag@) == self.groups@[idx].1@);
                }
                let (kept, pruned) = prune(&self.groups[i].1, finished);
                let mut kept = kept;
                kept.push(handle);
                self.groups[i].1 = kept;
                proof {
                    lemma_first_tag(self.groups@, tag@, idx);
                    assert(self.handles_of(tag@) == self.groups@[idx].1@);
                    assert forall|t2: Seq<char>|
                        t2 != tag@ implies #[trigger] self.has_tag(t2) == old(self).has_tag(
                        t2,
                    ) by {
                        lemma_same_tags(oldg, self.groups@, t2);
                    }
                    assert forall|t2: Seq<char>|
                        t2 != tag@ implies #[trigger] self.handles_of(t2) == old(self).handles_of(
                        t2,
                    ) by {
                        lemma_same_handles(oldg, self.groups@, t2);
                    }
                }
                return pruned;
            }
            i = i + 1;
        }
        proof {
            assert(!old(self).has_tag(tag@));
            assert(old(self).handles_of(tag@) == Seq::<u64>::empty());
            assert(finished@.len() == 0);
            assert(retain_live(Seq::<u64>::empty(), finished@) == Seq::<u64>::empty());
        }
        let mut hs: Vec<u64> = Vec::new();
        hs.push(handle);
        let ghost hs_snap = hs@;
        self.groups.push((tag_string, hs));
        proof {
            let n = oldg.len() as int;
            assert((self.groups@[n]).0@ == tag@);
            lemma_first_tag(self.groups@, tag@, n);
            assert(self.handles_of(tag@) == hs_snap);
            assert(hs_snap =~= retain_live(old(self).handles_of(tag@), finished@).push(handle));
            assert forall|t2: Seq<char>|
                t2 != tag@ implies #[trigger] self.has_tag(t2) == old(self).has_tag(t2) by {
                lemma_same_tags_push(oldg, self.groups@, t2);
            }
            assert forall|t2: Seq<char>|
                t2 != tag@ implies #[trigger] self.handles_of(t2) == old(self).handles_of(t2) by {
                lemma_same_handles_push(oldg, self.groups@, t2);
            }
            assert(pruned_of(old(self).handles_of(tag@), finished@) =~= Seq::<u64>::empty());
        }
        Vec::new()
    }


    /// How many handles are tracked under `tag`.
    #[verifier::loop_isolation(false)]
    pub fn count(&self, tag: &str) -> (n: usize)
        requires
            self.wf(),
        ensures
            n == self.handles_of(tag@).len(),
    {
        let tag_string = String::from_str(tag);
        let mut i: usize = 0;
        while i < self.groups.len()
            invariant
                0 <= i <= self.groups@.len(),
                forall|j: int| 0 <= j < i ==> (#[trigger] self.groups@[j]).0@ != tag@,
                tag_string@ == tag@,
            decreases self.groups@.len() - i,
        {
            if self.groups[i].0 == tag_string {
                proof {
                    lemma_first_tag(self.groups@, tag@, i as int);
                    assert(self.handles_of(tag@) == self.groups@[i as int].1@);
                }
                return self.groups[i].1.len();
            }
            i = i + 1;
        }
        proof {
            assert(!self.has_tag(tag@));
        }
        0
    }

    /// The handles tracked under `tag`, in registration order.
    #[verifier::loop_isolation(false)]
    pub fn get(&self, tag: &str) -> (r: Vec<u64>)
        requires
            self.wf(),
        ensures
            r@ == self.handles_of(tag@),
    {
        let tag_string = String::from_str(tag);
        let mut i: usize = 0;
        while i < self.groups.len()
            invariant
                0 <= i <= self.groups@.len(),
                forall|j: int| 0 <= j < i ==> (#[trigger] self.groups@[j]).0@ != tag@,
                tag_string@ == tag@,
            decreases self.groups@.len() - i,
        {
            if self.groups[i].0 == tag_string {
                proof {
                    lemma_first_tag(self.groups@, tag@, i as int);
                    assert(self.handles_of(tag@) == self.groups@[i as int].1@);
                }
                let hs = &self.groups[i].1;
                let mut out: Vec<u64> = Vec::new();
                let mut k: usize = 0;
                while k < hs.len()
                    invariant
                        0 <= k <= hs@.len(),
                        out@ == hs@.take(k as int),
                    decreases hs@.len() - k,
                {
                    out.push(hs[k]);
                    proof {
                        assert(out@ =~= hs@.take(k as int + 1));
                    }
                    k = k + 1;
                }
                proof {
                    assert(hs@.take(hs@.len() as int) =~= hs@);
                }
                return out;
            }
            i = i + 1;
        }
        proof {
            assert(!self.has_tag(tag@));
        }
        Vec::new()
    }

    /// Takes the whole group for `tag`: the returned handles are the ones
    /// the caller must cancel, and the tag is gone from the table.
    #[verifier::loop_isolation(false)]
    pub fn dispose(&mut self, tag: &str) -> (cancelled: Vec<u64>)
        requires
            old(self).wf(),
        ensures
            final(self).wf(),
            cancelled@ == old(self).handles_of(tag@),
            !old(self).has_tag(tag@) ==> *final(self) == *old(self),
            !final(self).has_tag(tag@),
            final(self).handles_of(tag@) == Seq::<u64>::empty(),
            forall|t2: Seq<char>|
                t2 != tag@ ==> #[trigger] final(self).has_tag(t2) == old(self).has_tag(t2),
            forall|t2: Seq<char>|
                t2 != tag@ ==> #[trigger] final(self).handles_of(t2) == old(self).handles_of(t2),
    {
        let ghost oldg = self.groups@;
        let tag_string = String::from_str(tag);
        let mut i: usize = 0;
        while i < self.groups.len()
            invariant
                0 <= i <= self.groups@.len(),
                forall|j: int| 0 <= j < i ==> (#[trigger] self.groups@[j]).0@ != tag@,
                self == old(self),
                tag_string@ == tag@,
            decreases self.groups@.len() - i,
        {
            if self.groups[i].0 == tag_string {
                let ghost idx = i as int;
                let entry = self.groups.remove(i);
                proof {
                    lemma_first_tag(oldg, tag@, idx);
                    assert(old(self).handles_of(tag@) == oldg[idx].1@);
                    assert forall|t2: Seq<char>| !(self.has_tag(t2) && t2 == tag@) by {
                        if self.has_tag(t2) && t2 == tag@ {
                            let w = choose|w: int|
                                0 <= w < self.groups@.len() && (#[trigger] self.groups@[w]).0@
                                    == t2;
                            if w < idx {
                                assert(oldg[w].0@ == tag@);
                            } else {
                                assert(oldg[w + 1].0@ == tag@);
                            }
                        }
                    }
                    assert forall|t2: Seq<char>|
                        t2 != tag@ implies #[trigger] self.has_tag(t2) == old(self).has_tag(
                        t2,
                    ) by {
                        lemma_same_tags_remove(oldg, self.groups@, idx, t2);
                    }
                    assert forall|t2: Seq<char>|
                        t2 != tag@ implies #[trigger] self.handles_of(t2) == old(self).handles_of(
                        t2,
                    ) by {
                        lemma_same_handles_remove(oldg, self.groups@, idx, t2);
                    }
                }
                return entry.1;
            }
            i = i + 1;
        }
        proof {
            assert(!old(self).has_tag(tag@));
        }
        Vec::new()
    }
}

/// The handles pruned away: entry `i` is dropped exactly when `fin[i]`.
pub open spec fn pruned_of(hs: Seq<u64>, fin: Seq<bool>) -> Seq<u64>
    recommends
        hs.len() == fin.len(),
    decreases hs.len(),
{
    if hs.len() == 0 {
        Seq::empty()
    } else {
        pruned_of(hs.drop_last(), fin.drop_last()) + (if fin.len() >= 1 && fin.last() {
            seq![hs.last()]
        } else {
            Seq::empty()
        })
    }
}

/// Splits handles into the kept (live) and the pruned (finished) ones.
#[verifier::loop_isolation(false)]
fn prune(hs: &Vec<u64>, finished: &Vec<bool>) -> (r: (Vec<u64>, Vec<u64>))
    requires
        hs@.len() == finished@.len(),
    ensures
        r.0@ == retain_live(hs@, finished@),
        r.1@ == pruned_of(hs@, finished@),
{
    let mut kept: Vec<u64> = Vec::new();
    let mut dropped: Vec<u64> = Vec::new();
    let mut i: usize = 0;
    while i < hs.len()
        invariant
            0 <= i <= hs@.len(),
            kept@ == retain_live(hs@.take(i as int), finished@.take(i as int)),
            dropped@ == pruned_of(hs@.take(i as int), finished@.take(i as int)),
        decreases hs@.len() - i,
    {
        proof {
            let th = hs@.take(i as int + 1);
            let tf = finished@.take(i as int + 1);
            assert(th.drop_last() =~= hs@.take(i as int));
            assert(tf.drop_last() =~= finished@.take(i as int));
            assert(th.last() == hs@[i as int]);
            assert(tf.last() == finished@[i as int]);
            if finished@[i as int] {
                assert(retain_live(th, tf) =~= retain_live(th.drop_last(), tf.drop_last()));
                assert(pruned_of(th, tf) =~= pruned_of(th.drop_last(), tf.drop_last()).push(
                    hs@[i as int],
                ));
            } else {
                assert(retain_live(th, tf) =~= retain_live(th.drop_last(), tf.drop_last()).push(
                    hs@[i as int],
                ));
                assert(pruned_of(th, tf) =~= pruned_of(th.drop_last(), tf.drop_last()));
            }
        }
        if finished[i] {
            dropped.push(hs[i]);
        } else {
            kept.push(hs[i]);
        }
        i = i + 1;
    }
    proof {
        assert(hs@.take(hs@.len() as int) =~= hs@);
        assert(finished@.take(finished@.len() as int) =~= finished@);
    }
    (kept, dropped)
}

/// In a well-formed table every index holding `tag` is the chosen one.
proof fn lemma_first_tag(g: Seq<(String, Vec<u64>)>, tag: Seq<char>, idx: int)
    requires
        0 <= idx < g.len(),
        g[idx].0@ == tag,
        forall|i: int, j: int|
            0 <= i < j < g.len() ==> (#[trigger] g[i]).0@ != (#[trigger] g[j]).0@,
    ensures
        forall|i: int| 0 <= i < g.len() && (#[trigger] g[i]).0@ == tag ==> i == idx,
{
    assert forall|i: int| 0 <= i < g.len() && (#[trigger] g[i]).0@ == tag implies i == idx by {
        if i < idx {
            assert(g[i].0@ != g[idx].0@);
        } else if i > idx {
            assert(g[idx].0@ != g[i].0@);
        }
    }
}

proof fn lemma_same_tags(a: Seq<(String, Vec<u64>)>, b: Seq<(String, Vec<u64>)>, tag: Seq<char>)
    requires
        a.len() == b.len(),
        forall|i: int| 0 <= i < a.len() ==> (#[trigger] a[i]).0@ == (#[trigger] b[i]).0@,
    ensures
        (exists|i: int| 0 <= i < a.len() && (#[trigger] a[i]).0@ == tag) == (exists|i: int|
            0 <= i < b.len() && (#[trigger] b[i]).0@ == tag),
{
    if exists|i: int| 0 <= i < a.len() && (#[trigger] a[i]).0@ == tag {
        let w = choose|i: int| 0 <= i < a.len() && (#[trigger] a[i]).0@ == tag;
        assert(b[w].0@ == tag);
    }
    if exists|i: int| 0 <= i < b.len() && (#[trigger] b[i]).0@ == tag {
        let w = choose|i: int| 0 <= i < b.len() && (#[trigger] b[i]).0@ == tag;
        assert(a[w].0@ == tag);
    }
}

proof fn lemma_same_handles(a: Seq<(String, Vec<u64>)>, b: Seq<(String, Vec<u64>)>, tag: Seq<char>)
    requires
        a.len() == b.len(),
        forall|i: int, j: int|
            0 <= i < j < a.len() ==> (#[trigger] a[i]).0@ != (#[trigger] a[j]).0@,
        forall|i: int| 0 <= i < a.len() ==> (#[trigger] a[i]).0@ == (#[trigger] b[i]).0@,
        forall|i: int| 0 <= i < a.len() && (#[trigger] a[i]).0@ == tag ==> a[i] == b[i],
    ensures
        spec_handles(a, tag) == spec_handles(b, tag),
{
    lemma_same_tags(a, b, tag);
    if exists|i: int| 0 <= i < a.len() && (#[trigger] a[i]).0@ == tag {
        let w1 = choose|i: int| 0 <= i < a.len() && (#[trigger] a[i]).0@ == tag;
        let w2 = choose|i: int| 0 <= i < b.len() && (#[trigger] b[i]).0@ == tag;
        assert(a[w2].0@ == tag);
        lemma_first_tag(a, tag, w1);
        assert(w2 == w1);
        assert(a[w1] == b[w1]);
        assert forall|i: int, j: int|
            0 <= i < j < b.len() implies (#[trigger] b[i]).0@ != (#[trigger] b[j]).0@ by {
            assert(a[i].0@ == b[i].0@);
            assert(a[j].0@ == b[j].0@);
        }
        lemma_first_tag(b, tag, w2);
        assert(spec_handles(a, tag) == a[w1].1@);
        assert(spec_handles(b, tag) == b[w2].1@);
    }
}

/// The handles under `tag` in a raw group table.
pub open spec fn spec_handles(g: Seq<(String, Vec<u64>)>, tag: Seq<char>) -> Seq<u64> {
    if exists|i: int| 0 <= i < g.len() && (#[trigger] g[i]).0@ == tag {
        g[choose|i: int| 0 <= i < g.len() && (#[trigger] g[i]).0@ == tag].1@
    } else {
        Seq::empty()
    }
}

proof fn lemma_same_tags_push(a: Seq<(String, Vec<u64>)>, b: Seq<(String, Vec<u64>)>, tag: Seq<
    char,
>)
    requires
        b.len() == a.len() + 1,
        forall|i: int| 0 <= i < a.len() ==> a[i] == b[i],
        b[a.len() as int].0@ != tag,
    ensures
        (exists|i: int| 0 <= i < a.len() && (#[trigger] a[i]).0@ == tag) == (exists|i: int|
            0 <= i < b.len() && (#[trigger] b[i]).0@ == tag),
{
    if exists|i: int| 0 <= i < a.len() && (#[trigger] a[i]).0@ == tag {
        let w = choose|i: int| 0 <= i < a.len() && (#[trigger] a[i]).0@ == tag;
        assert(b[w].0@ == tag);
    }
    if exists|i: int| 0 <= i < b.len() && (#[trigger] b[i]).0@ == tag {
        let w = choose|i: int| 0 <= i < b.len() && (#[trigger] b[i]).0@ == tag;
        assert(w < a.len());
        assert(a[w].0@ == tag);
    }
}

proof fn lemma_same_handles_push(a: Seq<(String, Vec<u64>)>, b: Seq<(String, Vec<u64>)>, tag: Seq<
    char,
>)
    requires
        b.len() == a.len() + 1,
        forall|i: int, j: int|
            0 <= i < j < a.len() ==> (#[trigger] a[i]).0@ != (#[trigger] a[j]).0@,
        forall|i: int| 0 <= i < a.len() ==> a[i] == b[i],
        b[a.len() as int].0@ != tag,
    ensures
        spec_handles(a, tag) == spec_handles(b, tag),
{
    lemma_same_tags_push(a, b, tag);
    if exists|i: int| 0 <= i < a.len() && (#[trigger] a[i]).0@ == tag {
        let w1 = choose|i: int| 0 <= i < a.len() && (#[trigger] a[i]).0@ == tag;
        let w2 = choose|i: int| 0 <= i < b.len() && (#[trigger] b[i]).0@ == tag;
        assert(w2 < a.len());
        assert(a[w2].0@ == tag);
        lemma_first_tag(a, tag, w1);
        assert(w2 == w1);
        assert forall|i: int| 0 <= i < b.len() && (#[trigger] b[i]).0@ == tag implies i == w2 by {
            if i < a.len() {
                assert(a[i].0@ == tag);
            }
        }
        assert(spec_handles(a, tag) == a[w1].1@);
        assert(spec_handles(b, tag) == b[w2].1@);
    }
}

proof fn lemma_same_tags_remove(
    a: Seq<(String, Vec<u64>)>,
    b: Seq<(String, Vec<u64>)>,
    idx: int,
    tag: Seq<char>,
)
    requires
        0 <= idx < a.len(),
        b == a.remove(idx),
        a[idx].0@ != tag,
    ensures
        (exists|i: int| 0 <= i < a.len() && (#[trigger] a[i]).0@ == tag) == (exists|i: int|
            0 <= i < b.len() && (#[trigger] b[i]).0@ == tag),
{
    if exists|i: int| 0 <= i < a.len() && (#[trigger] a[i]).0@ == tag {
        let w = choose|i: int| 0 <= i < a.len() && (#[trigger] a[i]).0@ == tag;
        if w < idx {
            assert(b[w].0@ == tag);
        } else {
            assert(w > idx);
            assert(b[w - 1].0@ == tag);
        }
    }
    if exists|i: int| 0 <= i < b.len() && (#[trigger] b[i]).0@ == tag {
        let w = choose|i: int| 0 <= i < b.len() && (#[trigger] b[i]).0@ == tag;
        if w < idx {
            assert(a[w].0@ == tag);
        } else {
            assert(a[w + 1].0@ == tag);
        }
    }
}

proof fn lemma_same_handles_remove(
    a: Seq<(String, Vec<u64>)>,
    b: Seq<(String, Vec<u64>)>,
    idx: int,
    tag: Seq<char>,
)
    requires
        0 <= idx < a.len(),
        b == a.remove(idx),
        a[idx].0@ != tag,
        forall|i: int, j: int|
            0 <= i < j < a.len() ==> (#[trigger] a[i]).0@ != (#[trigger] a[j]).0@,
    ensures
        spec_handles(a, tag) == spec_handles(b, tag),
{
    lemma_same_tags_remove(a, b, idx, tag);
    if exists|i: int| 0 <= i < a.len() && (#[trigger] a[i]).0@ == tag {
        let w1 = choose|i: int| 0 <= i < a.len() && (#[trigger] a[i]).0@ == tag;
        let w2 = choose|i: int| 0 <= i < b.len() && (#[trigger] b[i]).0@ == tag;
        lemma_first_tag(a, tag, w1);
        assert forall|i: int, j: int|
            0 <= i < j < b.len() implies (#[trigger] b[i]).0@ != (#[trigger] b[j]).0@ by {
            let ai: int = if i < idx {
                i
            } else {
                i + 1
            };
            let aj: int = if j < idx {
                j
            } else {
                j + 1
            };
            assert(b[i] == a[ai]);
            assert(b[j] == a[aj]);
        }
        lemma_first_tag(b, tag, w2);
        if w2 < idx {
            assert(a[w2].0@ == tag);
            assert(w2 == w1);
            assert(a[w2] == b[w2]);
        } else {
            assert(a[w2 + 1].0@ == tag);
            assert(w2 + 1 == w1);
            assert(a[w2 + 1] == b[w2]);
        }
        assert(spec_handles(a, tag) == a[w1].1@);
        assert(spec_handles(b, tag) == b[w2].1@);
    }
}

} // verus!
