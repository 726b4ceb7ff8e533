//! Editing the members of a JSON object as a map: setting a member replaces the one of that
//! name or adds it, taking one removes it; every other member reads as before.

use vstd::prelude::*;
use crate::json::{member, JsonValue};
use crate::text::{chars_of, seq_eq, string_of};

verus! {

/// Looking a name up in two member lists one after the other.
pub proof fn lemma_member_concat(a: Seq<(String, JsonValue)>, b: Seq<(String, JsonValue)>, k: Seq<char>)
    ensures
        member(a + b, k) == match member(a, k) {
            Some(v) => Some(v),
            None => member(b, k),
        },
    decreases a.len(),
{
    if a.len() > 0 {
        assert((a + b).drop_first() =~= a.drop_first() + b);
        assert((a + b)[0] == a[0]);
        lemma_member_concat(a.drop_first(), b, k);
    } else {
        assert(a + b =~= b);
    }
}

/// The member a one-member list holds.
pub proof fn lemma_member_single(x: (String, JsonValue), k: Seq<char>)
    ensures
        member(seq![x], k) == if x.0@ == k {
            Some(x.1)
        } else {
            None::<JsonValue>
        },
{
    let one = seq![x];
    assert(one[0] == x);
    assert(one.drop_first() =~= Seq::<(String, JsonValue)>::empty());
    assert(member(one.drop_first(), k) is None);
}

/// A list in which no member has the name holds none of it.
pub proof fn lemma_member_absent(s: Seq<(String, JsonValue)>, k: Seq<char>)
    requires
        forall|j: int| 0 <= j < s.len() ==> (#[trigger] s[j]).0@ != k,
    ensures
        member(s, k) is None,
    decreases s.len(),
{
    if s.len() > 0 {
        assert(s[0].0@ != k);
        assert forall|j: int| 0 <= j < s.drop_first().len() implies (#[trigger] s.drop_first()[j]).0@ != k by {
            assert(s.drop_first()[j] == s[j + 1]);
        }
        lemma_member_absent(s.drop_first(), k);
    }
}

/// Adding a member at the end: it is what the name reads as only when nothing before has it.
pub proof fn lemma_member_push(s: Seq<(String, JsonValue)>, x: (String, JsonValue), k: Seq<char>)
    ensures
        member(s.push(x), k) == match member(s, k) {
            Some(v) => Some(v),
            None => if x.0@ == k {
                Some(x.1)
            } else {
                None::<JsonValue>
            },
        },
{
    assert(s.push(x) =~= s + seq![x]);
    lemma_member_concat(s, seq![x], k);
    lemma_member_single(x, k);
}

/// The position of the first member of this name.
fn key_index(m: &Vec<(String, JsonValue)>, key: &[char]) -> (r: Option<usize>)
    ensures
        match r {
            Some(i) => i < m@.len() && m@[i as int].0@ == key@ && forall|j: int|
                0 <= j < i ==> (#[trigger] m@[j]).0@ != key@,
            None => forall|j: int| 0 <= j < m@.len() ==> (#[trigger] m@[j]).0@ != key@,
        },
{
    let mut i: usize = 0;
    while i < m.len()
        invariant
            i <= m@.len(),
            forall|j: int| 0 <= j < i ==> (#[trigger] m@[j]).0@ != key@,
        decreases m.len() - i,
    {
        let name = chars_of(m[i].0.as_str());
        if seq_eq(name.as_slice(), key) {
            return Some(i);
        }
        i = i + 1;
    }
    None
}

/// `Map::insert`: the member of this name now holds `value`; every other reads as before.
pub fn set_member(m: &mut Vec<(String, JsonValue)>, key: &str, value: JsonValue)
    ensures
        forall|k: Seq<char>| #[trigger] member(final(m)@, k) == if k == key@ {
            Some(value)
        } else {
            member(old(m)@, k)
        },
{
    let kc = chars_of(key);
    let ghost s = m@;
    match key_index(m, kc.as_slice()) {
        Some(i) => {
            let ghost pre = s.take(i as int);
            let ghost post = s.skip(i + 1);
            let _ = m.remove(i);
            let name = string_of(kc.as_slice());
            let ghost x = (name, value);
            m.insert(i, (name, value));
            proof {
                assert(s =~= pre + seq![s[i as int]] + post);
                assert(m@ =~= pre + seq![x] + post);
                assert forall|j: int| 0 <= j < pre.len() implies (#[trigger] pre[j]).0@ != key@ by {
                    assert(pre[j] == s[j]);
                }
                lemma_member_absent(pre, key@);
                assert forall|k: Seq<char>| #[trigger] member(m@, k) == if k == key@ {
                    Some(value)
                } else {
                    member(s, k)
                } by {
                    lemma_member_concat(pre + seq![x], post, k);
                    lemma_member_concat(pre, seq![x], k);
                    lemma_member_concat(pre + seq![s[i as int]], post, k);
                    lemma_member_concat(pre, seq![s[i as int]], k);
                    lemma_member_single(x, k);
                    lemma_member_single(s[i as int], k);
                }
            }
        },
        None => {
            let name = string_of(kc.as_slice());
            let ghost x = (name, value);
            m.push((name, value));
            proof {
                lemma_member_absent(s, key@);
                assert forall|k: Seq<char>| #[trigger] member(m@, k) == if k == key@ {
                    Some(value)
                } else {
                    member(s, k)
                } by {
                    lemma_member_push(s, x, k);
                }
            }
        },
    }
}

/// `Map::remove`: the value the name read as, and no member of that name is left; every other
/// name reads as before.
pub fn take_member(m: &mut Vec<(String, JsonValue)>, key: &str) -> (r: Option<JsonValue>)
    ensures
        r == member(old(m)@, key@),
        member(final(m)@, key@) is None,
        forall|k: Seq<char>| k != key@ ==> #[trigger] member(final(m)@, k) == member(old(m)@, k),
{
    let kc = chars_of(key);
    let ghost s = m@;
    let mut first: Option<JsonValue> = None;
    let mut removed_any: bool = false;
    loop
        invariant
            kc@ == key@,
            s == old(m)@,
            first == if removed_any {
                member(s, key@)
            } else {
                None::<JsonValue>
            },
            !removed_any ==> m@ == s,
            removed_any ==> member(s, key@) is Some,
            forall|k: Seq<char>| k != key@ ==> #[trigger] member(m@, k) == member(s, k),
        decreases m@.len(),
    {
        match key_index(m, kc.as_slice()) {
            None => {
                proof {
                    lemma_member_absent(m@, key@);
                }
                if !removed_any {
                    assert(member(s, key@) is None);
                }
                return first;
            },
            Some(i) => {
                let ghost t = m@;
                let ghost pre = t.take(i as int);
                let ghost post = t.skip(i + 1);
                let (_, v) = m.remove(i);
                proof {
                    assert(t =~= pre + seq![t[i as int]] + post);
                    assert(m@ =~= pre + post);
                    assert forall|j: int| 0 <= j < pre.len() implies (#[trigger] pre[j]).0@ != key@ by {
                        assert(pre[j] == t[j]);
                    }
                    lemma_member_absent(pre, key@);
                    lemma_member_concat(pre + seq![t[i as int]], post, key@);
                    lemma_member_concat(pre, seq![t[i as int]], key@);
                    lemma_member_single(t[i as int], key@);
                    assert forall|k: Seq<char>| k != key@ implies #[trigger] member(m@, k) == member(s, k) by {
                        lemma_member_concat(pre, post, k);
                        lemma_member_concat(pre + seq![t[i as int]], post, k);
                        lemma_member_concat(pre, seq![t[i as int]], k);
                        lemma_member_single(t[i as int], k);
                    }
                }
                if !removed_any {
                    first = Some(v);
                }
                removed_any = true;
            },
        }
    }
}

} // verus!
