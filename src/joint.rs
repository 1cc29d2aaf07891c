//! The joint view of one name across branches: which versions of an entry are visible,
//! and under which names when they conflict.

use vstd::prelude::*;
use vstd::string::StringExecFns;
use crate::access::WriterId;
use crate::directory::{Entry, EntryKind};
use crate::version_vector::vv_lt;

verus! {

/// Lowercase hex digit of `d`.
pub open spec fn hex_digit(d: int) -> char {
    if d == 0 { '0' } else if d == 1 { '1' } else if d == 2 { '2' } else if d == 3 { '3' }
    else if d == 4 { '4' } else if d == 5 { '5' } else if d == 6 { '6' } else if d == 7 { '7' }
    else if d == 8 { '8' } else if d == 9 { '9' } else if d == 10 { 'a' } else if d == 11 { 'b' }
    else if d == 12 { 'c' } else if d == 13 { 'd' } else if d == 14 { 'e' } else { 'f' }
}

/// Two lowercase hex digits per byte, high half first.
pub open spec fn hex_text(b: Seq<u8>) -> Seq<char>
    decreases b.len(),
{
    if b.len() == 0 {
        Seq::empty()
    } else {
        hex_text(b.drop_last()) + seq![hex_digit(b.last() as int / 16), hex_digit(b.last() as int % 16)]
    }
}

/// Relies on hex::encode: two lowercase hex digits per byte, high half first.
#[verifier::external_body]
fn to_hex(bytes: &[u8]) -> (r: String)
    ensures
        r@ == hex_text(bytes@),
{
    hex::encode(bytes)
}

/// One branch's version of an entry.
pub struct EntryVersion {
    pub writer: WriterId,
    pub entry: Entry,
}

/// Version `i` is visible: no other version's version vector is above its own, and it is
/// not a tombstone.
pub open spec fn visible(versions: Seq<EntryVersion>, i: int) -> bool {
    &&& 0 <= i < versions.len()
    &&& versions[i].entry.kind != EntryKind::Tombstone
    &&& forall|j: int|
        0 <= j < versions.len() && j != i ==> !vv_lt(versions[i].entry.vv, #[trigger] versions[j].entry.vv)
}

/// Name under which a conflicting version of `name` by `writer` shows: the name, a dot and
/// the hex digits of the writer id, so that versions of different writers never share a
/// name.
pub open spec fn disambiguated(name: Seq<char>, writer: WriterId) -> Seq<char> {
    name + seq!['.'] + hex_text(writer.0@)
}

proof fn lemma_hex_len(b: Seq<u8>)
    ensures
        hex_text(b).len() == 2 * b.len(),
    decreases b.len(),
{
    if b.len() > 0 {
        lemma_hex_len(b.drop_last());
    }
}

/// Different bytes of the same length give different hex text.
pub proof fn lemma_hex_injective(a: Seq<u8>, b: Seq<u8>)
    requires
        a.len() == b.len(),
        hex_text(a) == hex_text(b),
    ensures
        a == b,
    decreases a.len(),
{
    if a.len() > 0 {
        let ha = hex_text(a.drop_last());
        let hb = hex_text(b.drop_last());
        lemma_hex_len(a.drop_last());
        lemma_hex_len(b.drop_last());
        let n = ha.len() as int;
        let x = a.last() as int;
        let y = b.last() as int;
        assert(hex_text(a)[n] == hex_digit(x / 16));
        assert(hex_text(b)[n] == hex_digit(y / 16));
        assert(hex_text(a)[n + 1] == hex_digit(x % 16));
        assert(hex_text(b)[n + 1] == hex_digit(y % 16));
        assert(x / 16 == y / 16);
        assert(x % 16 == y % 16);
        assert(x == y);
        assert(hex_text(a).subrange(0, n) =~= ha);
        assert(hex_text(b).subrange(0, n) =~= hb);
        lemma_hex_injective(a.drop_last(), b.drop_last());
        assert(a =~= a.drop_last().push(a.last()));
        assert(b =~= b.drop_last().push(b.last()));
    }
}

/// Versions of different writers show under different names.
pub proof fn lemma_disambiguated_distinct(name: Seq<char>, w1: WriterId, w2: WriterId)
    requires
        w1.0@ != w2.0@,
    ensures
        disambiguated(name, w1) != disambiguated(name, w2),
{
    if disambiguated(name, w1) == disambiguated(name, w2) {
        let k = name.len() as int + 1;
        let d1 = disambiguated(name, w1);
        let d2 = disambiguated(name, w2);
        assert(d1.subrange(k, d1.len() as int) =~= hex_text(w1.0@));
        assert(d2.subrange(k, d2.len() as int) =~= hex_text(w2.0@));
        lemma_hex_injective(w1.0@, w2.0@);
    }
}

/// `name` with a dot and the fingerprint of `writer`; see `disambiguated`.
pub fn disambiguate(name: &str, writer: &WriterId) -> (r: String)
    ensures
        r@ == disambiguated(name@, *writer),
{
    let digits = to_hex(writer.0.as_slice());
    let mut r = String::from_str(name);
    proof {
        reveal_strlit(".");
    }
    r.append(".");
    r.append(digits.as_str());
    r
}

/// The visible versions of `name` among `versions`, each with the name it shows under:
/// the plain name when only one is visible, otherwise the disambiguated name of each.
/// Versions are listed in their order in `versions`.
pub fn joint_names(name: &str, versions: &Vec<EntryVersion>) -> (r: Vec<(String, usize)>)
    requires
        forall|i: int| 0 <= i < versions@.len() ==> #[trigger] versions@[i].entry.vv.wf(),
    ensures
        forall|k: int| 0 <= k < r@.len() ==> visible(versions@, #[trigger] r@[k].1 as int),
        forall|i: int| visible(versions@, i) ==> exists|k: int| 0 <= k < r@.len() && #[trigger] r@[k].1 == i,
        forall|k: int, m: int| 0 <= k < m < r@.len() ==> #[trigger] r@[k].1 < #[trigger] r@[m].1,
        r@.len() == 1 ==> r@[0].0@ == name@,
        r@.len() != 1 ==> forall|k: int|
            0 <= k < r@.len() ==> #[trigger] r@[k].0@ == disambiguated(name@, versions@[r@[k].1 as int].writer),
        forall|k: int, m: int|
            0 <= k < m < r@.len() && versions@[r@[k].1 as int].writer.0@ != versions@[r@[m].1 as int].writer.0@
                ==> #[trigger] r@[k].0@ != #[trigger] r@[m].0@,
{
    let mut shown: Vec<usize> = Vec::new();
    let mut i: usize = 0;
    while i < versions.len()
        invariant
            i <= versions@.len(),
            forall|k: int| 0 <= k < versions@.len() ==> #[trigger] versions@[k].entry.vv.wf(),
            forall|k: int| 0 <= k < shown@.len() ==> visible(versions@, #[trigger] shown@[k] as int),
            forall|k: int| 0 <= k < shown@.len() ==> #[trigger] shown@[k] < i,
            forall|j: int| 0 <= j < i && visible(versions@, j) ==> exists|k: int|
                0 <= k < shown@.len() && #[trigger] shown@[k] == j,
            forall|k: int, m: int| 0 <= k < m < shown@.len() ==> #[trigger] shown@[k] < #[trigger] shown@[m],
        decreases versions@.len() - i,
    {
        let mut dominated = false;
        let mut j: usize = 0;
        while j < versions.len()
            invariant
                i < versions@.len(),
                j <= versions@.len(),
                forall|k: int| 0 <= k < versions@.len() ==> #[trigger] versions@[k].entry.vv.wf(),
                dominated == exists|m: int|
                    0 <= m < j && m != i && vv_lt(versions@[i as int].entry.vv, #[trigger] versions@[m].entry.vv),
            decreases versions@.len() - j,
        {
            if j != i {
                let below = versions[i].entry.vv.le(&versions[j].entry.vv);
                let above = versions[j].entry.vv.le(&versions[i].entry.vv);
                if below && !above {
                    dominated = true;
                }
            }
            j = j + 1;
        }
        let live = match versions[i].entry.kind {
            EntryKind::Tombstone => false,
            _ => true,
        };
        let ghost before = shown@;
        if live && !dominated {
            shown.push(i);
            proof {
                assert(shown@[before.len() as int] == i);
                assert forall|k: int| 0 <= k < before.len() implies shown@[k] == before[k] by {}
            }
        }
        proof {
            assert forall|jj: int| 0 <= jj < i + 1 && visible(versions@, jj) implies exists|k: int|
                0 <= k < shown@.len() && #[trigger] shown@[k] == jj by {
                if jj < i {
                    let k = choose|k: int| 0 <= k < before.len() && before[k] == jj;
                    assert(shown@[k] == jj);
                } else {
                    assert(shown@[before.len() as int] == jj);
                }
            }
        }
        i = i + 1;
    }
    let mut r: Vec<(String, usize)> = Vec::new();
    let plain = shown.len() == 1;
    let mut k: usize = 0;
    while k < shown.len()
        invariant
            k <= shown@.len(),
            plain == (shown@.len() == 1),
            forall|m: int| 0 <= m < shown@.len() ==> visible(versions@, #[trigger] shown@[m] as int),
            r@.len() == k,
            forall|m: int| 0 <= m < k ==> #[trigger] r@[m].1 == shown@[m],
            plain ==> forall|m: int| 0 <= m < k ==> #[trigger] r@[m].0@ == name@,
            !plain ==> forall|m: int|
                0 <= m < k ==> #[trigger] r@[m].0@ == disambiguated(name@, versions@[shown@[m] as int].writer),
        decreases shown@.len() - k,
    {
        let index = shown[k];
        let shown_name = if plain {
            String::from_str(name)
        } else {
            disambiguate(name, &versions[index].writer)
        };
        r.push((shown_name, index));
        k = k + 1;
    }
    proof {
        assert forall|k: int, m: int|
            0 <= k < m < r@.len() && versions@[r@[k].1 as int].writer.0@ != versions@[r@[m].1 as int].writer.0@
                implies #[trigger] r@[k].0@ != #[trigger] r@[m].0@ by {
            lemma_disambiguated_distinct(
                name@,
                versions@[r@[k].1 as int].writer,
                versions@[r@[m].1 as int].writer,
            );
        }
        assert forall|i: int| visible(versions@, i) implies exists|m: int| 0 <= m < r@.len() && #[trigger] r@[m].1 == i by {
            let m = choose|m: int| 0 <= m < shown@.len() && shown@[m] == i;
            assert(r@[m].1 == i);
        }
    }
    r
}

} // verus!
