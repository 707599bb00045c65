//! The multi-valued uniform container bound to a node before it runs.
use vstd::prelude::*;

use crate::node::TexHandle;
use crate::strings::dec_str;
use crate::strings::concat2;
use crate::strings::concat3;
use crate::strings::str_eq;
use crate::strings::usize_to_string;

verus! {

/// One value bound to a shading program or handed to a compute node: a
/// pixel resource, the frame time (bits of a single-precision number), a
/// resolution in pixels, or a double-precision number (carried as bits).
#[derive(Debug, Clone, Copy, PartialEq, Eq, Structural)]
pub enum Uniform {
    Texture(TexHandle),
    Float(u32),
    Size(u32, u32),
    Number(u64),
}

/// The mathematical content of a `UniformMap`: kinds in insertion order,
/// each with its values in insertion order.
pub type MapView = Seq<(Seq<char>, Seq<Uniform>)>;

/// The values bound under a kind: those of the first entry carrying it.
pub open spec fn lookup_kind(m: MapView, kind: Seq<char>) -> Option<Seq<Uniform>>
    decreases m.len(),
{
    if m.len() == 0 {
        None
    } else if m[0].0 == kind {
        Some(m[0].1)
    } else {
        lookup_kind(m.skip(1), kind)
    }
}

/// A map after one value is added under a kind: appended to the kind's
/// entry if one exists, else a fresh entry at the end.
pub open spec fn map_add(m: MapView, kind: Seq<char>, u: Uniform) -> MapView
    decreases m.len(),
{
    if m.len() == 0 {
        seq![(kind, seq![u])]
    } else if m[0].0 == kind {
        seq![(m[0].0, m[0].1.push(u))] + m.skip(1)
    } else {
        seq![m[0]] + map_add(m.skip(1), kind, u)
    }
}

/// A map after every value of a sequence is added under one kind, in order.
pub open spec fn map_add_all(m: MapView, kind: Seq<char>, vs: Seq<Uniform>) -> MapView
    decreases vs.len(),
{
    if vs.len() == 0 {
        m
    } else {
        map_add_all(map_add(m, kind, vs[0]), kind, vs.skip(1))
    }
}

/// A map after another map's entries are re-added into it, kind by kind.
pub open spec fn map_append(m: MapView, other: MapView) -> MapView
    decreases other.len(),
{
    if other.len() == 0 {
        m
    } else {
        map_append(map_add_all(m, other[0].0, other[0].1), other.skip(1))
    }
}

/// The external name of a kind's single value: `u_` then the kind.
pub open spec fn u_name(kind: Seq<char>) -> Seq<char> {
    seq!['u', '_'] + kind
}

/// The external name of a kind's value at an index: `u_<kind>_<index>`.
pub open spec fn u_name_idx(kind: Seq<char>, i: nat) -> Seq<char> {
    seq!['u', '_'] + kind + seq!['_'] + dec_str(i)
}

/// The bindings one entry contributes: the unqualified name exactly when
/// the kind holds a single value, and an indexed name for every value.
pub open spec fn entry_bindings(kind: Seq<char>, vs: Seq<Uniform>) -> Seq<(Seq<char>, Uniform)> {
    (if vs.len() == 1 {
        seq![(u_name(kind), vs[0])]
    } else {
        Seq::<(Seq<char>, Uniform)>::empty()
    }) + Seq::new(vs.len(), |i: int| (u_name_idx(kind, i as nat), vs[i]))
}

/// Every binding a map exposes, entry by entry.
pub open spec fn spec_bindings(m: MapView) -> Seq<(Seq<char>, Uniform)>
    decreases m.len(),
{
    if m.len() == 0 {
        Seq::empty()
    } else {
        entry_bindings(m[0].0, m[0].1) + spec_bindings(m.skip(1))
    }
}

/// The view of an executable bindings list.
pub open spec fn bindings_view(v: Seq<(String, Uniform)>) -> Seq<(Seq<char>, Uniform)> {
    Seq::new(v.len(), |i: int| (v[i].0@, v[i].1))
}

/// An ordered, multi-valued mapping from a string "kind" to the values
/// bound under it.
#[derive(Debug)]
pub struct UniformMap {
    entries: Vec<(String, Vec<Uniform>)>,
}

impl View for UniformMap {
    type V = MapView;

    closed spec fn view(&self) -> MapView {
        Seq::new(self.entries@.len(), |i: int| (self.entries@[i].0@, self.entries@[i].1@))
    }
}

impl UniformMap {
    /// Create a new empty `UniformMap`.
    pub fn new() -> (r: UniformMap)
        ensures
            r@ == MapView::empty(),
    {
        let r = UniformMap { entries: Vec::new() };
        proof {
            assert(r@ =~= MapView::empty());
        }
        r
    }

    /// Inserts a uniform under a kind, after all values already bound
    /// under that kind. Returns the value's position within the kind.
    pub fn add(&mut self, kind: &str, uniform: Uniform) -> (n: usize)
        ensures
            final(self)@ == map_add(old(self)@, kind@, uniform),
            n as int == match lookup_kind(old(self)@, kind@) {
                Some(vs) => vs.len() as int,
                None => 0,
            },
    {
        let ghost m0 = self@;
        let mut i: usize = 0;
        let n = self.entries.len();
        while i < n
            invariant
                0 <= i <= n,
                n == self.entries.len(),
                self@ == m0,
                m0 == old(self)@,
                forall|j: int| 0 <= j < i ==> m0[j].0 != kind@,
            decreases n - i,
        {
            if str_eq(self.entries[i].0.as_str(), kind) {
                let mut entry = self.entries.remove(i);
                let pos = entry.1.len();
                entry.1.push(uniform);
                self.entries.insert(i, entry);
                proof {
                    assert(self@ =~~= m0.update(i as int, (m0[i as int].0, m0[i as int].1.push(
                        uniform,
                    ))));
                    lemma_map_add_found(m0, kind@, uniform, i as int);
                    lemma_lookup_found(m0, kind@, i as int);
                }
                return pos;
            }
            i += 1;
        }
        let mut vs: Vec<Uniform> = Vec::new();
        vs.push(uniform);
        self.entries.push((kind.to_owned(), vs));
        proof {
            assert(self@ =~~= m0 + seq![(kind@, seq![uniform])]);
            lemma_map_add_missing(m0, kind@, uniform);
            lemma_lookup_missing(m0, kind@);
        }
        0
    }

    /// Get the value bound under a kind at an index, if there is one.
    pub fn get(&self, kind: &str, index: usize) -> (r: Option<&Uniform>)
        ensures
            r == match lookup_kind(self@, kind@) {
                Some(vs) => if index < vs.len() {
                    Some(&vs[index as int])
                } else {
                    None::<&Uniform>
                },
                None => None::<&Uniform>,
            },
    {
        let mut i: usize = 0;
        let n = self.entries.len();
        while i < n
            invariant
                0 <= i <= n,
                n == self.entries.len(),
                forall|j: int| 0 <= j < i ==> self@[j].0 != kind@,
            decreases n - i,
        {
            if str_eq(self.entries[i].0.as_str(), kind) {
                proof {
                    lemma_lookup_found(self@, kind@, i as int);
                }
                let vs = &self.entries[i].1;
                if index < vs.len() {
                    return Some(&vs[index]);
                } else {
                    return None;
                }
            }
            i += 1;
        }
        proof {
            lemma_lookup_missing(self@, kind@);
        }
        None
    }

    /// Get all values bound under a kind, if any are.
    pub fn get_kind_all(&self, kind: &str) -> (r: Option<&Vec<Uniform>>)
        ensures
            match r {
                Some(vs) => lookup_kind(self@, kind@) == Some(vs@),
                None => lookup_kind(self@, kind@) is None,
            },
    {
        let mut i: usize = 0;
        let n = self.entries.len();
        while i < n
            invariant
                0 <= i <= n,
                n == self.entries.len(),
                forall|j: int| 0 <= j < i ==> self@[j].0 != kind@,
            decreases n - i,
        {
            if str_eq(self.entries[i].0.as_str(), kind) {
                proof {
                    lemma_lookup_found(self@, kind@, i as int);
                }
                return Some(&self.entries[i].1);
            }
            i += 1;
        }
        proof {
            lemma_lookup_missing(self@, kind@);
        }
        None
    }

    /// Join two maps: every value of `other` is re-added into `self`,
    /// kind by kind, after all of `self`'s values for that kind.
    pub fn append(&mut self, other: UniformMap)
        ensures
            final(self)@ == map_append(old(self)@, other@),
    {
        let ghost o0 = other@;
        let mut rest = other.entries;
        let ghost m0 = self@;
        proof {
            assert(Seq::new(rest@.len(), |i: int| (rest@[i].0@, rest@[i].1@)) =~= o0);
        }
        while rest.len() > 0
            invariant
                map_append(self@, Seq::new(rest@.len(), |i: int| (rest@[i].0@, rest@[i].1@)))
                    == map_append(m0, o0),
            decreases rest@.len(),
        {
            let ghost pre = Seq::new(rest@.len(), |i: int| (rest@[i].0@, rest@[i].1@));
            let (kind, vs) = rest.remove(0);
            let ghost mid = self@;
            let mut j: usize = 0;
            let n = vs.len();
            proof {
                assert(vs@.skip(0) =~= vs@);
            }
            while j < n
                invariant
                    0 <= j <= n,
                    n == vs.len(),
                    map_add_all(self@, kind@, vs@.skip(j as int)) == map_add_all(mid, kind@, vs@),
                decreases n - j,
            {
                let ghost before = self@;
                self.add(kind.as_str(), vs[j]);
                proof {
                    assert(vs@.skip(j as int)[0] == vs@[j as int]);
                    assert(vs@.skip(j as int).skip(1) =~= vs@.skip(j as int + 1));
                }
                j += 1;
            }
            proof {
                assert(vs@.skip(n as int) =~= Seq::<Uniform>::empty());
                assert(self@ == map_add_all(mid, kind@, vs@));
                assert(Seq::new(rest@.len(), |i: int| (rest@[i].0@, rest@[i].1@)) =~= pre.skip(1));
                assert(pre[0].0 == kind@ && pre[0].1 == vs@);
            }
        }
        proof {
            assert(Seq::new(rest@.len(), |i: int| (rest@[i].0@, rest@[i].1@)) =~= MapView::empty());
        }
    }

    /// The bindings this map exposes to a shading program. A kind with a
    /// single value is bound under `u_<kind>` as well as `u_<kind>_0`; a
    /// kind with several values is bound only under `u_<kind>_<index>`.
    pub fn bindings(&self) -> (r: Vec<(String, Uniform)>)
        ensures
            bindings_view(r@) == spec_bindings(self@),
    {
        let mut r: Vec<(String, Uniform)> = Vec::new();
        let mut i: usize = 0;
        let n = self.entries.len();
        proof {
            assert(self@.take(0) =~= MapView::empty());
            assert(bindings_view(r@) =~= spec_bindings(self@.take(0)));
        }
        while i < n
            invariant
                0 <= i <= n,
                n == self.entries.len(),
                bindings_view(r@) == spec_bindings(self@.take(i as int)),
            decreases n - i,
        {
            let kind = &self.entries[i].0;
            let vs = &self.entries[i].1;
            let ghost head = if vs@.len() == 1 {
                seq![(u_name(kind@), vs@[0])]
            } else {
                Seq::<(Seq<char>, Uniform)>::empty()
            };
            let ghost tail = Seq::new(vs@.len(), |k: int| (u_name_idx(kind@, k as nat), vs@[k]));
            let mut e: Vec<(String, Uniform)> = Vec::new();
            proof {
                reveal_strlit("u_");
                reveal_strlit("_");
            }
            if vs.len() == 1 {
                let name = concat2("u_", kind.as_str());
                proof {
                    assert(name@ =~= u_name(kind@));
                }
                e.push((name, vs[0]));
            }
            proof {
                assert(bindings_view(e@) =~~= head + tail.take(0));
            }
            let mut j: usize = 0;
            let m = vs.len();
            while j < m
                invariant
                    0 <= j <= m,
                    m == vs@.len(),
                    tail == Seq::new(vs@.len(), |k: int| (u_name_idx(kind@, k as nat), vs@[k])),
                    bindings_view(e@) == head + tail.take(j as int),
                decreases m - j,
            {
                let idx = usize_to_string(j);
                let name = concat3(concat2("u_", kind.as_str()).as_str(), "_", idx.as_str());
                proof {
                    reveal_strlit("u_");
                    reveal_strlit("_");
                    assert(name@ =~= u_name_idx(kind@, j as nat));
                }
                let ghost e0 = e@;
                e.push((name, vs[j]));
                proof {
                    assert(tail[j as int] == (u_name_idx(kind@, j as nat), vs@[j as int]));
                    assert(tail.take(j + 1) =~= tail.take(j as int).push(tail[j as int]));
                    assert(e@ == e0.push((name, vs@[j as int])));
                    assert(bindings_view(e@) =~~= bindings_view(e0).push((name@, vs@[j as int])));
                    assert(bindings_view(e@) =~~= head + tail.take(j + 1));
                }
                j += 1;
            }
            let ghost r0 = r@;
            let ghost e0 = e@;
            r.append(&mut e);
            proof {
                assert(tail.take(m as int) =~= tail);
                assert(bindings_view(e0) == entry_bindings(kind@, vs@));
                assert(bindings_view(r@) =~~= bindings_view(r0) + bindings_view(e0));
                lemma_bindings_take_step(self@, i as int);
                assert(self@[i as int].0 == kind@ && self@[i as int].1 == vs@);
                assert(bindings_view(r@) =~~= spec_bindings(self@.take(i as int + 1)));
            }
            i += 1;
        }
        proof {
            assert(self@.take(n as int) =~= self@);
        }
        r
    }
}

/// Adding under a kind whose first entry stands at `i` appends to that entry.
proof fn lemma_map_add_found(m: MapView, kind: Seq<char>, u: Uniform, i: int)
    requires
        0 <= i < m.len(),
        m[i].0 == kind,
        forall|j: int| 0 <= j < i ==> m[j].0 != kind,
    ensures
        map_add(m, kind, u) == m.update(i, (m[i].0, m[i].1.push(u))),
    decreases i,
{
    if i == 0 {
        assert(map_add(m, kind, u) =~= m.update(0, (m[0].0, m[0].1.push(u))));
    } else {
        lemma_map_add_found(m.skip(1), kind, u, i - 1);
        assert(map_add(m, kind, u) =~= m.update(i, (m[i].0, m[i].1.push(u))));
    }
}

/// Adding under a kind no entry carries appends a fresh entry.
proof fn lemma_map_add_missing(m: MapView, kind: Seq<char>, u: Uniform)
    requires
        forall|j: int| 0 <= j < m.len() ==> m[j].0 != kind,
    ensures
        map_add(m, kind, u) == m + seq![(kind, seq![u])],
    decreases m.len(),
{
    if m.len() == 0 {
        assert(map_add(m, kind, u) =~= m + seq![(kind, seq![u])]);
    } else {
        lemma_map_add_missing(m.skip(1), kind, u);
        assert(map_add(m, kind, u) =~= m + seq![(kind, seq![u])]);
    }
}

/// A lookup finds the values of the first entry carrying the kind.
proof fn lemma_lookup_found(m: MapView, kind: Seq<char>, i: int)
    requires
        0 <= i < m.len(),
        m[i].0 == kind,
        forall|j: int| 0 <= j < i ==> m[j].0 != kind,
    ensures
        lookup_kind(m, kind) == Some(m[i].1),
    decreases i,
{
    if i > 0 {
        lemma_lookup_found(m.skip(1), kind, i - 1);
    }
}

/// A lookup misses when no entry carries the kind.
proof fn lemma_lookup_missing(m: MapView, kind: Seq<char>)
    requires
        forall|j: int| 0 <= j < m.len() ==> m[j].0 != kind,
    ensures
        lookup_kind(m, kind) is None,
    decreases m.len(),
{
    if m.len() > 0 {
        lemma_lookup_missing(m.skip(1), kind);
    }
}

/// Looking a kind up after an add: the added value lands after its
/// kind's existing values; every other kind reads as before.
pub proof fn lemma_lookup_map_add(m: MapView, kind: Seq<char>, u: Uniform, other: Seq<char>)
    ensures
        lookup_kind(map_add(m, kind, u), other) == (if other == kind {
            Some(
                match lookup_kind(m, kind) {
                    Some(vs) => vs.push(u),
                    None => seq![u],
                },
            )
        } else {
            lookup_kind(m, other)
        }),
    decreases m.len(),
{
    if m.len() == 0 {
        let r = map_add(m, kind, u);
        assert(r == seq![(kind, seq![u])]);
        assert(r[0] == (kind, seq![u]) && r.len() == 1);
        assert(r.skip(1) =~= MapView::empty());
        if other == kind {
            assert(lookup_kind(r, other) == Some(seq![u]));
        } else {
            assert(lookup_kind(r, other) == lookup_kind(r.skip(1), other));
            assert(lookup_kind(r, other) is None);
        }
    } else if m[0].0 == kind {
        let r = map_add(m, kind, u);
        assert(r == seq![(m[0].0, m[0].1.push(u))] + m.skip(1));
        assert(r[0] == (m[0].0, m[0].1.push(u)));
        assert(r.len() == 1 + m.skip(1).len());
        assert(r.skip(1) =~= m.skip(1));
        assert(lookup_kind(m, kind) == Some(m[0].1));
        if other == kind {
            assert(lookup_kind(r, other) == Some(m[0].1.push(u)));
        } else {
            assert(lookup_kind(r, other) == lookup_kind(m.skip(1), other));
            assert(lookup_kind(m, other) == lookup_kind(m.skip(1), other));
        }
    } else {
        let r = map_add(m, kind, u);
        assert(r == seq![m[0]] + map_add(m.skip(1), kind, u));
        assert(r[0] == m[0]);
        assert(r.len() == 1 + map_add(m.skip(1), kind, u).len());
        assert(r.skip(1) =~= map_add(m.skip(1), kind, u));
        lemma_lookup_map_add(m.skip(1), kind, u, other);
        if other == m[0].0 {
            assert(lookup_kind(r, other) == Some(m[0].1));
            assert(lookup_kind(m, other) == Some(m[0].1));
        } else {
            assert(lookup_kind(r, other) == lookup_kind(r.skip(1), other));
            assert(lookup_kind(m, other) == lookup_kind(m.skip(1), other));
        }
    }
}

/// A decimal rendering has at least one digit.
pub proof fn lemma_dec_str_nonempty(n: nat)
    ensures
        dec_str(n).len() >= 1,
    decreases n,
{
    if n >= 10 {
        lemma_dec_str_nonempty(n / 10);
    }
}

/// Whatever one entry contributes, the whole map's bindings carry.
pub proof fn lemma_bindings_include_entry(m: MapView, j: int, x: (Seq<char>, Uniform))
    requires
        0 <= j < m.len(),
        entry_bindings(m[j].0, m[j].1).contains(x),
    ensures
        spec_bindings(m).contains(x),
    decreases j,
{
    if j == 0 {
        let e = entry_bindings(m[0].0, m[0].1);
        let i = choose|i: int| 0 <= i < e.len() && e[i] == x;
        assert(spec_bindings(m)[i] == x);
    } else {
        lemma_bindings_include_entry(m.skip(1), j - 1, x);
        let rest = spec_bindings(m.skip(1));
        let i = choose|i: int| 0 <= i < rest.len() && rest[i] == x;
        let e0 = entry_bindings(m[0].0, m[0].1);
        assert(spec_bindings(m)[e0.len() + i] == x);
    }
}

/// The binding-name rule, read forward: a kind with exactly one value is
/// bound under its unqualified name as well as its zero-indexed name, and
/// every value of a kind is bound under its indexed name.
pub proof fn lemma_binding_name_rule(m: MapView, j: int)
    requires
        0 <= j < m.len(),
    ensures
        m[j].1.len() == 1 ==> spec_bindings(m).contains((u_name(m[j].0), m[j].1[0])),
        forall|i: int|
            0 <= i < m[j].1.len() ==> spec_bindings(m).contains(
                (u_name_idx(m[j].0, i as nat), m[j].1[i]),
            ),
{
    let kind = m[j].0;
    let vs = m[j].1;
    let e = entry_bindings(kind, vs);
    let head_len: int = if vs.len() == 1 {
        1
    } else {
        0
    };
    if vs.len() == 1 {
        assert(e[0] == (u_name(kind), vs[0]));
        assert(e.contains((u_name(kind), vs[0])));
        lemma_bindings_include_entry(m, j, (u_name(kind), vs[0]));
    }
    assert forall|i: int| 0 <= i < vs.len() implies spec_bindings(m).contains(
        (u_name_idx(kind, i as nat), vs[i]),
    ) by {
        assert(e[head_len + i] == (u_name_idx(kind, i as nat), vs[i]));
        assert(e.contains((u_name_idx(kind, i as nat), vs[i])));
        lemma_bindings_include_entry(m, j, (u_name_idx(kind, i as nat), vs[i]));
    }
}

/// The unqualified names of two kinds coincide only for one kind.
proof fn lemma_u_name_injective(k1: Seq<char>, k2: Seq<char>)
    requires
        u_name(k1) == u_name(k2),
    ensures
        k1 == k2,
{
    assert(u_name(k1).skip(2) =~= k1);
    assert(u_name(k2).skip(2) =~= k2);
}

/// An indexed name never reads as the unqualified name of a kind that is
/// free of underscores.
proof fn lemma_u_name_idx_differs(k1: Seq<char>, i: nat, kind: Seq<char>)
    requires
        forall|p: int| 0 <= p < kind.len() ==> kind[p] != '_',
    ensures
        u_name_idx(k1, i) != u_name(kind),
{
    lemma_dec_str_nonempty(i);
    if u_name_idx(k1, i) == u_name(kind) {
        assert(u_name_idx(k1, i).len() == 2 + k1.len() + 1 + dec_str(i).len());
        assert(u_name(kind).len() == 2 + kind.len());
        assert(0 <= k1.len() < kind.len());
        assert(u_name_idx(k1, i)[2 + k1.len() as int] == '_');
        assert(u_name(kind)[2 + k1.len() as int] == kind[k1.len() as int]);
        assert(kind[k1.len() as int] == '_');
        assert(false);
    }
}

/// The binding-name rule, read backward: when every entry of a kind (the
/// kind itself free of underscores) binds two or more values, the map
/// exposes no binding under the kind's unqualified name.
pub proof fn lemma_no_unqualified_name(m: MapView, kind: Seq<char>)
    requires
        forall|j: int| 0 <= j < m.len() && (#[trigger] m[j]).0 == kind ==> m[j].1.len() != 1,
        forall|p: int| 0 <= p < kind.len() ==> kind[p] != '_',
    ensures
        forall|k: int|
            0 <= k < spec_bindings(m).len() ==> (#[trigger] spec_bindings(m)[k]).0 != u_name(kind),
    decreases m.len(),
{
    if m.len() > 0 {
        assert(forall|j: int|
            0 <= j < m.skip(1).len() && (#[trigger] m.skip(1)[j]).0 == kind ==> m.skip(1)[j].1.len()
                != 1) by {
            assert(forall|j: int| 0 <= j < m.skip(1).len() ==> m.skip(1)[j] == m[j + 1]);
        }
        lemma_no_unqualified_name(m.skip(1), kind);
        let e0 = entry_bindings(m[0].0, m[0].1);
        let rest = spec_bindings(m.skip(1));
        assert forall|k: int| 0 <= k < spec_bindings(m).len() implies (
        #[trigger] spec_bindings(m)[k]).0 != u_name(kind) by {
            if k < e0.len() {
                assert(spec_bindings(m)[k] == e0[k]);
                if m[0].1.len() == 1 && k == 0 {
                    assert(e0[k].0 == u_name(m[0].0));
                    if e0[k].0 == u_name(kind) {
                        lemma_u_name_injective(m[0].0, kind);
                        assert(m[0].0 == kind);
                        assert(false);
                    }
                } else {
                    let head_len: int = if m[0].1.len() == 1 {
                        1
                    } else {
                        0
                    };
                    assert(e0[k].0 == u_name_idx(m[0].0, (k - head_len) as nat));
                    lemma_u_name_idx_differs(m[0].0, (k - head_len) as nat, kind);
                }
            } else {
                assert(spec_bindings(m)[k] == rest[k - e0.len()]);
            }
        }
    }
}

/// The bindings of one more entry extend the bindings of the prefix.
proof fn lemma_bindings_take_step(m: MapView, i: int)
    requires
        0 <= i < m.len(),
    ensures
        spec_bindings(m.take(i + 1)) == spec_bindings(m.take(i)) + entry_bindings(m[i].0, m[i].1),
    decreases i,
{
    if i == 0 {
        assert(m.take(1).skip(1) =~= MapView::empty());
        assert(m.take(0) =~= MapView::empty());
        assert(spec_bindings(m.take(1)) =~= spec_bindings(m.take(0)) + entry_bindings(
            m[0].0,
            m[0].1,
        ));
    } else {
        lemma_bindings_take_step(m.skip(1), i - 1);
        assert(m.take(i + 1).skip(1) =~= m.skip(1).take(i));
        assert(m.take(i).skip(1) =~= m.skip(1).take(i - 1));
        assert(m.take(i + 1)[0] == m[0] && m.take(i)[0] == m[0]);
        assert(spec_bindings(m.take(i + 1)) == entry_bindings(m[0].0, m[0].1) + spec_bindings(
            m.skip(1).take(i),
        ));
        assert(spec_bindings(m.take(i)) == entry_bindings(m[0].0, m[0].1) + spec_bindings(
            m.skip(1).take(i - 1),
        ));
        assert(spec_bindings(m.take(i + 1)) =~= spec_bindings(m.take(i)) + entry_bindings(
            m[i].0,
            m[i].1,
        ));
    }
}

} // verus!
