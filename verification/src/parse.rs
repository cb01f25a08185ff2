//! Merging flat name-to-command tables, the later table winning.
use vstd::prelude::*;

use crate::name_map::NameMap;

verus! {

/// Copies every entry of `src` into `dst`, replacing what `dst` had under
/// the same name.
pub fn merge_into(dst: &mut NameMap<String>, src: &NameMap<String>)
    ensures
        final(dst)@ == old(dst)@.union_prefer_right(src@),
{
    let ghost d0 = dst@;
    let n = src.len();
    let ghost ks = src.key_seq();
    let mut i: usize = 0;
    assert(src@.restrict(ks.take(0).to_set()) =~= Map::<Seq<char>, String>::empty());
    assert(d0.union_prefer_right(Map::<Seq<char>, String>::empty()) =~= d0);
    while i < n
        invariant
            i <= n,
            n == ks.len(),
            ks == src.key_seq(),
            src@.dom() == ks.to_set(),
            d0 == old(dst)@,
            dst@ == d0.union_prefer_right(src@.restrict(ks.take(i as int).to_set())),
        decreases n - i,
    {
        let k = src.key_at(i);
        let v = src.value_at(i);
        let ghost before = dst@;
        dst.insert(k.clone(), v.clone());
        assert(ks.take(i + 1).to_set() =~= ks.take(i as int).to_set().insert(ks[i as int])) by {
            let a = ks.take(i + 1);
            let b = ks.take(i as int);
            assert forall|x: Seq<char>| a.contains(x) <==> b.contains(x) || x == ks[i as int] by {
                if a.contains(x) {
                    let j = choose|j: int| 0 <= j < a.len() && a[j] == x;
                    if j < i {
                        assert(b[j] == x);
                    }
                }
                if b.contains(x) {
                    let j = choose|j: int| 0 <= j < b.len() && b[j] == x;
                    assert(a[j] == x);
                }
                if x == ks[i as int] {
                    assert(a[i as int] == x);
                }
            }
        }
        assert(dst@ =~= d0.union_prefer_right(src@.restrict(ks.take(i + 1).to_set())));
        i += 1;
    }
    assert(ks.take(n as int) =~= ks);
    assert(src@.restrict(ks.to_set()) =~= src@);
}

/// The commands of the home table, the project table and the manifest
/// table together; on a shared name the later table wins.
pub fn conf(home: &NameMap<String>, local: &NameMap<String>, cargo: &NameMap<String>) -> (r:
    NameMap<String>)
    ensures
        r@ == home@.union_prefer_right(local@).union_prefer_right(cargo@),
{
    let mut r: NameMap<String> = NameMap::new();
    assert(Map::<Seq<char>, String>::empty().union_prefer_right(home@) =~= home@);
    merge_into(&mut r, home);
    merge_into(&mut r, local);
    merge_into(&mut r, cargo);
    r
}

} // verus!
