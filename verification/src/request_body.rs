//! Request bodies: a tagged variant over JSON attributes, form attributes,
//! and a raw string, together with a verified insert-or-replace store for
//! `key=value` attributes.

use vstd::prelude::*;

verus! {

/// The mathematical map an attribute list stands for; a later entry with
/// the same key overrides an earlier one.
pub open spec fn kv_map(entries: Seq<(Seq<char>, Seq<char>)>) -> Map<Seq<char>, Seq<char>>
    decreases entries.len(),
{
    if entries.len() == 0 {
        Map::<Seq<char>, Seq<char>>::empty()
    } else {
        kv_map(entries.drop_last()).insert(entries.last().0, entries.last().1)
    }
}

/// No two entries share a key.
pub open spec fn uniq_keys(entries: Seq<(Seq<char>, Seq<char>)>) -> bool {
    forall|i: int, j: int|
        0 <= i < j < entries.len() ==> (#[trigger] entries[i]).0 != (#[trigger] entries[j]).0
}

/// Replacing the value of the entry holding a key updates the map at that
/// key, when keys are unique.
proof fn lemma_kv_update(entries: Seq<(Seq<char>, Seq<char>)>, i: int, k: Seq<char>, v: Seq<char>)
    requires
        uniq_keys(entries),
        0 <= i < entries.len(),
        entries[i].0 == k,
    ensures
        kv_map(entries.update(i, (k, v))) == kv_map(entries).insert(k, v),
    decreases entries.len(),
{
    let updated = entries.update(i, (k, v));
    if i == entries.len() - 1 {
        assert(updated.drop_last() =~= entries.drop_last());
        assert(updated.last() == (k, v));
        assert(kv_map(entries.drop_last()).insert(k, entries.last().1).insert(k, v) =~= kv_map(
            entries.drop_last(),
        ).insert(k, v));
    } else {
        assert(updated.drop_last() =~= entries.drop_last().update(i, (k, v)));
        assert(updated.last() == entries.last());
        lemma_kv_update(entries.drop_last(), i, k, v);
        let last = entries.last();
        assert(last.0 != k) by {
            assert(entries[i].0 != entries[entries.len() - 1].0);
        }
        assert(kv_map(entries.drop_last()).insert(k, v).insert(last.0, last.1) =~= kv_map(
            entries.drop_last(),
        ).insert(last.0, last.1).insert(k, v));
    }
}

/// Inserts `key = value`, replacing the value in place when the key is
/// already present.
pub(crate) fn upsert(entries: &mut Vec<(String, String)>, key: String, value: String)
    requires
        uniq_keys(old(entries).deep_view()),
    ensures
        uniq_keys(final(entries).deep_view()),
        kv_map(final(entries).deep_view()) == kv_map(old(entries).deep_view()).insert(key@, value@),
{
    let ghost dv = entries.deep_view();
    let n = entries.len();
    let mut i: usize = 0;
    while i < n
        invariant
            i <= n,
            n == entries@.len(),
            dv == entries.deep_view(),
            dv == old(entries).deep_view(),
            uniq_keys(dv),
            dv.len() == n,
            forall|j: int| 0 <= j < i ==> (#[trigger] dv[j]).0 != key@,
        decreases n - i,
    {
        proof {
            assert(dv[i as int] == (entries@[i as int].0@, entries@[i as int].1@));
        }
        if entries[i].0 == key {
            proof {
                assert(dv[i as int].0 == key@);
            }
            let _ = entries.remove(i);
            entries.insert(i, (key, value));
            proof {
                assert(entries.deep_view() =~~= dv.update(i as int, (key@, value@)));
                assert(entries.deep_view() == dv.update(i as int, (key@, value@)));
                lemma_kv_update(dv, i as int, key@, value@);
                assert(uniq_keys(entries.deep_view())) by {
                    assert forall|a: int, b: int|
                        0 <= a < b < entries.deep_view().len() implies (#[trigger] entries.deep_view()[a]).0
                        != (#[trigger] entries.deep_view()[b]).0 by {
                        assert(entries.deep_view()[a].0 == dv[a].0);
                        assert(entries.deep_view()[b].0 == dv[b].0);
                    }
                }
            }
            return ;
        }
        i = i + 1;
    }
    let ghost old_dv = entries.deep_view();
    entries.push((key, value));
    proof {
        assert(entries.deep_view() =~~= old_dv.push((key@, value@)));
        assert(entries.deep_view().drop_last() =~= old_dv);
        assert(uniq_keys(entries.deep_view())) by {
            assert forall|a: int, b: int|
                0 <= a < b < entries.deep_view().len() implies (#[trigger] entries.deep_view()[a]).0
                != (#[trigger] entries.deep_view()[b]).0 by {
                if b < old_dv.len() {
                    assert(entries.deep_view()[a].0 == old_dv[a].0);
                    assert(entries.deep_view()[b].0 == old_dv[b].0);
                } else {
                    assert(entries.deep_view()[b] == (key@, value@));
                    assert(entries.deep_view()[a].0 == old_dv[a].0);
                }
            }
        }
    }
}

/// How the body of a request is typed when it is sent.
#[derive(Debug, Clone, Copy, PartialEq, Eq, Structural)]
pub enum RequestBodyType {
    /// `key=value` attributes sent as a JSON object.
    JSON,
    /// `key=value` attributes sent as a URL-encoded form.
    FORM,
    /// A raw string sent as the body verbatim.
    ARBITRARY,
}

/// The body of a request: attributes for JSON and form bodies, a raw
/// string for arbitrary ones. The unused branch stays empty.
#[derive(Debug, Clone, PartialEq)]
pub struct RequestBody {
    pub body_type: RequestBodyType,
    pub value: Vec<(String, String)>,
    pub raw: String,
}

impl RequestBody {
    /// Whether the unused branch is empty and attribute keys are unique.
    pub open spec fn wf(&self) -> bool {
        &&& uniq_keys(self.value.deep_view())
        &&& (self.body_type == RequestBodyType::ARBITRARY ==> self.value.deep_view().len() == 0)
        &&& (self.body_type != RequestBodyType::ARBITRARY ==> self.raw@.len() == 0)
    }

    /// Builds a body of the given type: an arbitrary body takes the raw
    /// string, the others take the attribute list.
    pub fn new(
        body_type: RequestBodyType,
        value: Option<Vec<(String, String)>>,
        raw: Option<String>,
    ) -> (r: Self)
        requires
            body_type == RequestBodyType::ARBITRARY ==> raw is Some,
            body_type != RequestBodyType::ARBITRARY ==> value is Some && uniq_keys(
                value.unwrap().deep_view(),
            ),
        ensures
            r.wf(),
            r.body_type == body_type,
            body_type == RequestBodyType::ARBITRARY ==> r.raw == raw.unwrap(),
            body_type != RequestBodyType::ARBITRARY ==> r.value == value.unwrap(),
    {
        match body_type {
            RequestBodyType::ARBITRARY => RequestBody {
                body_type,
                value: Vec::new(),
                raw: raw.unwrap(),
            },
            _ => RequestBody { body_type, value: value.unwrap(), raw: String::new() },
        }
    }
}

} // verus!
