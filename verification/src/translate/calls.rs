//! The open tool calls of a stream, by index.

use crate::translate::stream_model::ascending;
use crate::translate::stream_model::in_order;
use crate::translate::stream_model::ToolModel;
use std::collections::BTreeMap;
use vstd::prelude::*;

verus! {

/// A tool call that the upstream has begun.
#[derive(Debug)]
pub struct ToolCallState {
    pub item_id: String,
    pub call_id: String,
    pub name: String,
    pub arguments_buf: String,
    pub output_index: u32,
    pub added_emitted: bool,
}

impl View for ToolCallState {
    type V = ToolModel;

    open spec fn view(&self) -> ToolModel {
        ToolModel {
            item_id: self.item_id@,
            call_id: self.call_id@,
            name: self.name@,
            arguments: self.arguments_buf@,
            output_index: self.output_index,
            added: self.added_emitted,
        }
    }
}

/// What the tool calls of a map hold.
pub open spec fn calls_view(m: Map<u32, ToolCallState>) -> Map<u32, ToolModel> {
    m.map_values(|t: ToolCallState| t@)
}

/// Takes the tool call number `k` out of the map.
pub fn take_call(m: &mut BTreeMap<u32, ToolCallState>, k: u32) -> (r: Option<ToolCallState>)
    ensures
        calls_view(final(m)@) == calls_view(old(m)@).remove(k),
        match r {
            Some(t) => calls_view(old(m)@).contains_key(k) && calls_view(old(m)@)[k] == t@,
            None => !calls_view(old(m)@).contains_key(k),
        },
{
    broadcast use vstd::laws_cmp::group_laws_cmp;

    let r = m.remove(&k);
    proof {
        assert(calls_view(m@) =~= calls_view(old(m)@).remove(k));
    }
    r
}

/// Puts a tool call under the number `k`.
pub fn put_call(m: &mut BTreeMap<u32, ToolCallState>, k: u32, t: ToolCallState)
    ensures
        calls_view(final(m)@) == calls_view(old(m)@).insert(k, t@),
{
    broadcast use vstd::laws_cmp::group_laws_cmp;

    let _ = m.insert(k, t);
    proof {
        assert(calls_view(m@) =~= calls_view(old(m)@).insert(k, t@));
    }
}

/// Two ascending sequences with the same elements are the same.
pub proof fn lemma_ascending_unique(a: Seq<u32>, b: Seq<u32>)
    requires
        ascending(a),
        ascending(b),
        a.to_set() == b.to_set(),
    ensures
        a == b,
    decreases a.len(),
{
    if a.len() == 0 {
        if b.len() > 0 {
            assert(b.to_set().contains(b[0]));
            assert(a.to_set().contains(b[0]));
        }
        assert(a =~= b);
    } else {
        assert(a.to_set().contains(a.last()));
        assert(b.to_set().contains(a.last()));
        let j = choose|j: int| 0 <= j < b.len() && b[j] == a.last();
        assert(b.to_set().contains(b.last()));
        assert(a.to_set().contains(b.last()));
        let i = choose|i: int| 0 <= i < a.len() && a[i] == b.last();
        assert(a.last() == b.last()) by {
            if i < a.len() - 1 {
                assert(a[i] < a.last());
            }
            if j < b.len() - 1 {
                assert(b[j] < b.last());
            }
        }
        let x = a.last();
        assert(a.drop_last().to_set() =~= a.to_set().remove(x)) by {
            lemma_drop_last_set(a);
        }
        assert(b.drop_last().to_set() =~= b.to_set().remove(x)) by {
            lemma_drop_last_set(b);
        }
        lemma_ascending_unique(a.drop_last(), b.drop_last());
        assert(a =~= a.drop_last().push(x));
        assert(b =~= b.drop_last().push(x));
    }
}

proof fn lemma_drop_last_set(a: Seq<u32>)
    requires
        ascending(a),
        a.len() > 0,
    ensures
        a.drop_last().to_set() =~= a.to_set().remove(a.last()),
{
    let s = a.drop_last();
    assert forall|x: u32| s.to_set().contains(x) == a.to_set().remove(a.last()).contains(x) by {
        if s.contains(x) {
            let i = choose|i: int| 0 <= i < s.len() && s[i] == x;
            assert(a[i] == x && a[i] < a.last());
            assert(a.contains(x));
        }
        if a.contains(x) && x != a.last() {
            let i = choose|i: int| 0 <= i < a.len() && a[i] == x;
            assert(s[i] == x);
        }
    }
}

/// An ascending sequence puts its elements in order.
pub proof fn lemma_in_order(q: Seq<u32>)
    requires
        ascending(q),
    ensures
        in_order(q.to_set()) == q,
{
    lemma_ascending_unique(in_order(q.to_set()), q);
}

/// Puts `k` where it belongs, unless it is there.
fn insert_ascending(v: &mut Vec<u32>, k: u32)
    requires
        ascending(old(v)@),
    ensures
        ascending(final(v)@),
        final(v)@.to_set() == old(v)@.to_set().insert(k),
{
    let mut i: usize = 0;
    while i < v.len() && v[i] < k
        invariant
            i <= v.len(),
            v@ == old(v)@,
            forall|j: int| 0 <= j < i ==> v@[j] < k,
        decreases v.len() - i,
    {
        i = i + 1;
    }
    if i < v.len() && v[i] == k {
        proof {
            assert(v@.contains(k));
            assert(v@.to_set() =~= v@.to_set().insert(k));
        }
        return;
    }
    v.insert(i, k);
    proof {
        let was = old(v)@;
        let now = v@;
        assert(now == was.insert(i as int, k));
        assert forall|x: u32| now.to_set().contains(x) == was.to_set().insert(k).contains(x) by {
            if now.contains(x) {
                let j = choose|j: int| 0 <= j < now.len() && now[j] == x;
                if j < i {
                    assert(was[j] == x);
                } else if j > i {
                    assert(was[j - 1] == x);
                }
            }
            if was.contains(x) {
                let j = choose|j: int| 0 <= j < was.len() && was[j] == x;
                if j < i {
                    assert(now[j] == x);
                } else {
                    assert(now[j + 1] == x);
                }
            }
            assert(now[i as int] == k);
        }
        assert(now.to_set() =~= was.to_set().insert(k));
    }
}

proof fn lemma_take_all(s: Seq<u32>)
    ensures
        s.take(s.len() as int) == s,
{
    assert(s.take(s.len() as int) =~= s);
}

/// The keys of a map, from the smallest up.
pub fn keys_in_order<V>(m: &BTreeMap<u32, V>) -> (r: Vec<u32>)
    ensures
        ascending(r@),
        r@.to_set() == m@.dom(),
        r@ == in_order(m@.dom()),
{
    broadcast use vstd::laws_cmp::group_laws_cmp;

    let mut v: Vec<u32> = Vec::new();
    proof {
        assert(v@.to_set() =~= Set::<u32>::empty());
    }
    for k in it: m.keys()
        invariant
            ascending(v@),
            v@.to_set() == it.seq().unref().take(it.index()).to_set(),
    {
        proof {
            let s = it.seq().unref();
            let i = it.index();
            assert(s.take(i + 1) =~= s.take(i).push(s[i]));
            assert(s.take(i + 1).to_set() =~= s.take(i).to_set().insert(*k)) by {
                s.take(i).lemma_push_to_set_commute(s[i]);
            }
        }
        insert_ascending(&mut v, *k);
    }
    proof {
        let ks = vstd::std_specs::iter::IteratorSpec::remaining(
            &vstd::std_specs::btree::spec_keys_iter(m),
        );
        lemma_take_all(ks.unref());
        lemma_in_order(v@);
    }
    v
}

/// The numbers of the open tool calls, from the smallest up.
pub fn call_indices(m: &BTreeMap<u32, ToolCallState>) -> (r: Vec<u32>)
    ensures
        ascending(r@),
        r@.to_set() == calls_view(m@).dom(),
        r@ == in_order(calls_view(m@).dom()),
{
    proof {
        assert(calls_view(m@).dom() =~= m@.dom());
    }
    keys_in_order(m)
}

} // verus!
