//! The recursive value type and its addressing by keys.

use crate::error::{ErrorKind, Exception};
use crate::bytes::lemma_lex_equal;
use crate::keygen::{base64url_nopad, generate_key};
use crate::scalar::{
    is_nan_value, lemma_cmp_antisymmetric, lemma_cmp_transitive, same_value, scalar_cmp,
    text_bytes, SimpleValue,
};
use std::cmp::Ordering;
use vstd::prelude::*;

verus! {

/// A recursive value: absence, a scalar, an ordered array, a table from
/// scalar keys to values, or a detached reference to a key.
#[derive(Debug, PartialEq)]
pub enum Variant {
    Null,
    Scalar(SimpleValue),
    Array(Vec<Variant>),
    /// Entries in key order, keys unique (see `table_sorted`).
    Table(Vec<(SimpleValue, Variant)>),
    Index(SimpleValue),
}

/// The shapes of key that address a child of a value.
#[derive(Debug, Clone, PartialEq)]
pub enum Key {
    /// A 0-based position in an array.
    Position(usize),
    /// A table key, or an integer position in an array.
    ByScalar(SimpleValue),
}

/// The first entry at or after `i` whose key compares equal to `key`.
pub open spec fn first_match(e: Seq<(SimpleValue, Variant)>, key: SimpleValue, i: int) -> Option<
    int,
>
    decreases e.len() - i,
{
    if i < 0 || i >= e.len() {
        None
    } else if scalar_cmp(e[i].0, key) == Ordering::Equal {
        Some(i)
    } else {
        first_match(e, key, i + 1)
    }
}

/// The first entry at or after `i` whose key is not below `key`, or the
/// length when there is none.
pub open spec fn insertion_point(e: Seq<(SimpleValue, Variant)>, key: SimpleValue, i: int) -> int
    decreases e.len() - i,
{
    if i < 0 || i >= e.len() {
        e.len() as int
    } else if scalar_cmp(e[i].0, key) != Ordering::Less {
        i
    } else {
        insertion_point(e, key, i + 1)
    }
}

/// The keys of the entries are strictly increasing.
pub open spec fn table_sorted(e: Seq<(SimpleValue, Variant)>) -> bool {
    forall|i: int, j: int|
        0 <= i < j < e.len() ==> scalar_cmp(#[trigger] e[i].0, #[trigger] e[j].0) == Ordering::Less
}

/// Two trees hold the same values in the same shape.
pub open spec fn same_tree(a: Variant, b: Variant) -> bool
    decreases a,
{
    match (a, b) {
        (Variant::Null, Variant::Null) => true,
        (Variant::Scalar(x), Variant::Scalar(y)) => same_value(x, y),
        (Variant::Index(x), Variant::Index(y)) => same_value(x, y),
        (Variant::Array(x), Variant::Array(y)) => x.len() == y.len() && forall|i: int|
            0 <= i < x.len() ==> same_tree(#[trigger] x[i], y[i]),
        (Variant::Table(x), Variant::Table(y)) => x.len() == y.len() && forall|i: int|
            0 <= i < x.len() ==> same_value(#[trigger] x[i].0, y[i].0) && same_tree(x[i].1, y[i].1),
        _ => false,
    }
}

impl Variant {
    /// A table keeps its keys strictly increasing.
    pub open spec fn wf(self) -> bool {
        self is Table ==> table_sorted(self->Table_0@)
    }

    /// Where a key resolves among the value's children.
    pub open spec fn position(self, key: Key) -> Option<int> {
        match (self, key) {
            (Variant::Array(x), Key::Position(n)) => if n < x.len() {
                Some(n as int)
            } else {
                None
            },
            (Variant::Array(x), Key::ByScalar(SimpleValue::Integer(n))) => if 0 <= n < x.len() {
                Some(n as int)
            } else {
                None
            },
            (Variant::Table(e), Key::ByScalar(s)) => first_match(e@, s, 0),
            _ => None,
        }
    }

    /// The child at position `i`.
    pub open spec fn child_at(self, i: int) -> Variant {
        match self {
            Variant::Array(x) => x@[i],
            Variant::Table(e) => e@[i].1,
            _ => Variant::Null,
        }
    }

    /// The child that a key resolves to.
    pub open spec fn child(self, key: Key) -> Option<Variant> {
        match self.position(key) {
            Some(i) => Some(self.child_at(i)),
            None => None,
        }
    }

    /// The number of children: 0 for Null, 1 for a scalar, none for an index.
    pub open spec fn size_of(self) -> Option<nat> {
        match self {
            Variant::Null => Some(0),
            Variant::Scalar(_) => Some(1),
            Variant::Array(x) => Some(x@.len()),
            Variant::Table(e) => Some(e@.len()),
            Variant::Index(_) => None,
        }
    }

    /// `after` is this value with the child at position `i` replaced by `v`
    /// (a table keeps the entry's key).
    pub open spec fn replaced(self, after: Variant, i: int, v: Variant) -> bool {
        match (self, after) {
            (Variant::Array(x), Variant::Array(y)) => y@ == x@.update(i, v),
            (Variant::Table(x), Variant::Table(y)) => y@ == x@.update(i, (x@[i].0, v)),
            _ => false,
        }
    }

    /// `after` is this value with the child at position `i` taken out.
    pub open spec fn removed(self, after: Variant, i: int) -> bool {
        match (self, after) {
            (Variant::Array(x), Variant::Array(y)) => y@ == x@.remove(i),
            (Variant::Table(x), Variant::Table(y)) => y@ == x@.remove(i),
            _ => false,
        }
    }

    /// `after` is this table with `v` stored under `key`: in place of the
    /// value of an entry whose key compares equal, else as a new entry at
    /// the key's place in the order.
    pub open spec fn inserted(self, after: Variant, key: SimpleValue, v: Variant) -> bool {
        match (self, after) {
            (Variant::Table(x), Variant::Table(y)) => {
                let j = insertion_point(x@, key, 0);
                if j < x.len() && scalar_cmp(x@[j].0, key) == Ordering::Equal {
                    y@ == x@.update(j, (x@[j].0, v))
                } else {
                    y@ == x@.insert(j, (key, v))
                }
            },
            _ => false,
        }
    }
}

/// The index of the first entry whose key compares equal to `key`.
fn find_entry(e: &Vec<(SimpleValue, Variant)>, key: &SimpleValue) -> (r: Option<usize>)
    ensures
        r matches Some(i) ==> first_match(e@, *key, 0) == Some(i as int) && i < e@.len(),
        r is None ==> first_match(e@, *key, 0) is None,
{
    let mut i: usize = 0;
    while i < e.len()
        invariant
            i <= e@.len(),
            first_match(e@, *key, 0) == first_match(e@, *key, i as int),
        decreases e@.len() - i,
    {
        if matches!(e[i].0.cmp(key), Ordering::Equal) {
            return Some(i);
        }
        i = i + 1;
    }
    None
}

/// The first index whose key is not below `key`, or the length.
fn find_insertion_point(e: &Vec<(SimpleValue, Variant)>, key: &SimpleValue) -> (r: usize)
    ensures
        r == insertion_point(e@, *key, 0),
        r <= e@.len(),
        forall|j: int| 0 <= j < r ==> scalar_cmp(#[trigger] e@[j].0, *key) == Ordering::Less,
        r < e@.len() ==> scalar_cmp(e@[r as int].0, *key) != Ordering::Less,
{
    let mut i: usize = 0;
    while i < e.len()
        invariant
            i <= e@.len(),
            insertion_point(e@, *key, 0) == insertion_point(e@, *key, i as int),
            forall|j: int| 0 <= j < i ==> scalar_cmp(#[trigger] e@[j].0, *key) == Ordering::Less,
        decreases e@.len() - i,
    {
        if !matches!(e[i].0.cmp(key), Ordering::Less) {
            return i;
        }
        i = i + 1;
    }
    i
}

proof fn lemma_insert_keeps_sorted(
    e: Seq<(SimpleValue, Variant)>,
    j: int,
    key: SimpleValue,
    v: Variant,
)
    requires
        table_sorted(e),
        0 <= j <= e.len(),
        forall|i: int| 0 <= i < j ==> scalar_cmp(#[trigger] e[i].0, key) == Ordering::Less,
        j < e.len() ==> scalar_cmp(e[j].0, key) == Ordering::Greater,
    ensures
        table_sorted(e.insert(j, (key, v))),
{
    let f = e.insert(j, (key, v));
    assert forall|a: int, b: int| 0 <= a < b < f.len() implies scalar_cmp(
        #[trigger] f[a].0,
        #[trigger] f[b].0,
    ) == Ordering::Less by {
        if b == j {
            assert(f[a] == e[a]);
        } else if a == j {
            assert(f[b] == e[b - 1]);
            lemma_cmp_antisymmetric(e[j].0, key);
            if b - 1 > j {
                assert(scalar_cmp(e[j].0, e[b - 1].0) == Ordering::Less);
                lemma_cmp_transitive(key, e[j].0, e[b - 1].0);
            }
        } else if a < j && b < j {
            assert(f[a] == e[a] && f[b] == e[b]);
        } else if a < j {
            assert(f[a] == e[a] && f[b] == e[b - 1]);
        } else {
            assert(f[a] == e[a - 1] && f[b] == e[b - 1]);
        }
    }
}

proof fn lemma_first_match_some(e: Seq<(SimpleValue, Variant)>, key: SimpleValue, i: int)
    requires
        0 <= i,
        first_match(e, key, i) is Some,
    ensures
        i <= first_match(e, key, i)->Some_0 < e.len(),
        scalar_cmp(e[first_match(e, key, i)->Some_0].0, key) == Ordering::Equal,
    decreases e.len() - i,
{
    if i < e.len() && scalar_cmp(e[i].0, key) != Ordering::Equal {
        lemma_first_match_some(e, key, i + 1);
    }
}

proof fn lemma_first_match_same_keys(
    e: Seq<(SimpleValue, Variant)>,
    f: Seq<(SimpleValue, Variant)>,
    key: SimpleValue,
    i: int,
)
    requires
        0 <= i,
        e.len() == f.len(),
        forall|j: int| 0 <= j < f.len() ==> f[j].0 == e[j].0,
    ensures
        first_match(e, key, i) == first_match(f, key, i),
    decreases e.len() - i,
{
    if i < e.len() {
        lemma_first_match_same_keys(e, f, key, i + 1);
    }
}

proof fn lemma_first_match_none(e: Seq<(SimpleValue, Variant)>, key: SimpleValue, i: int)
    requires
        0 <= i,
        first_match(e, key, i) is None,
    ensures
        forall|k: int| i <= k < e.len() ==> scalar_cmp(#[trigger] e[k].0, key) != Ordering::Equal,
    decreases e.len() - i,
{
    if i < e.len() {
        lemma_first_match_none(e, key, i + 1);
    }
}

/// The value of entry `i`, mutably borrowed; the keys stay as they are.
fn entry_value_mut(e: &mut Vec<(SimpleValue, Variant)>, i: usize) -> (r: &mut Variant)
    requires
        i < old(e)@.len(),
    ensures
        *r == old(e)@[i as int].1,
        final(e)@ == old(e)@.update(i as int, (old(e)@[i as int].0, *final(r))),
        table_sorted(old(e)@) ==> table_sorted(final(e)@),
{
    let ghost before = e@;
    let r = &mut e[i].1;
    proof {
        let f = before.update(i as int, (before[i as int].0, *final(r)));
        if table_sorted(before) {
            assert forall|a: int, b: int| 0 <= a < b < f.len() implies scalar_cmp(
                #[trigger] f[a].0,
                #[trigger] f[b].0,
            ) == Ordering::Less by {
                assert(f[a].0 == before[a].0 && f[b].0 == before[b].0);
            }
        }
    }
    r
}

/// Stores a Null value under a key that no entry matches, and lends it.
fn create_entry(e: &mut Vec<(SimpleValue, Variant)>, key: SimpleValue) -> (r: &mut Variant)
    requires
        first_match(old(e)@, key, 0) is None,
    ensures
        *r == Variant::Null,
        Variant::Table(*old(e)).inserted(Variant::Table(*final(e)), key, *final(r)),
        table_sorted(old(e)@) ==> table_sorted(final(e)@),
{
    let ghost before = e@;
    proof {
        lemma_first_match_none(before, key, 0);
    }
    let j = table_insert(e, key, Variant::Null);
    assert(e@ == before.insert(j as int, (key, Variant::Null)));
    let r = &mut e[j].1;
    proof {
        assert(before.insert(j as int, (key, Variant::Null)).update(j as int, (key, *final(r)))
            =~= before.insert(j as int, (key, *final(r))));
        if table_sorted(before) {
            let mid = before.insert(j as int, (key, Variant::Null));
            let f = before.insert(j as int, (key, *final(r)));
            assert forall|a: int, b: int| 0 <= a < b < f.len() implies scalar_cmp(
                #[trigger] f[a].0,
                #[trigger] f[b].0,
            ) == Ordering::Less by {
                assert(f[a].0 == mid[a].0 && f[b].0 == mid[b].0);
            }
        }
    }
    r
}

/// Stores `v` under `key`: in place of the value of an entry whose key
/// compares equal, else as a new entry at the key's place in the order.
fn table_insert(e: &mut Vec<(SimpleValue, Variant)>, key: SimpleValue, v: Variant) -> (r: usize)
    ensures
        Variant::Table(*old(e)).inserted(Variant::Table(*final(e)), key, v),
        table_sorted(old(e)@) ==> table_sorted(final(e)@),
        r == insertion_point(old(e)@, key, 0),
        r <= old(e)@.len(),
        r < final(e)@.len(),
{
    let j = find_insertion_point(e, &key);
    let ghost before = e@;
    if j < e.len() && matches!(e[j].0.cmp(&key), Ordering::Equal) {
        let (k, _) = e.remove(j);
        e.insert(j, (k, v));
        assert(e@ =~= before.update(j as int, (before[j as int].0, v)));
        assert forall|a: int, b: int| 0 <= a < b < e@.len() implies scalar_cmp(
            #[trigger] e@[a].0,
            #[trigger] e@[b].0,
        ) == scalar_cmp(before[a].0, before[b].0) by {}
    } else {
        proof {
            if j < before.len() {
                lemma_cmp_antisymmetric(before[j as int].0, key);
            }
        }
        e.insert(j, (key, v));
        proof {
            if table_sorted(before) {
                lemma_insert_keeps_sorted(before, j as int, key, v);
            }
        }
    }
    j
}

fn copy_scalar(s: &SimpleValue) -> (r: SimpleValue)
    ensures
        same_value(r, *s),
{
    match s {
        SimpleValue::Bool(b) => SimpleValue::Bool(*b),
        SimpleValue::Integer(x) => SimpleValue::Integer(*x),
        SimpleValue::Float(x) => SimpleValue::Float(*x),
        SimpleValue::Text(t) => SimpleValue::Text(t.clone()),
        SimpleValue::Bytes(b) => SimpleValue::Bytes(vstd::slice::slice_to_vec(b.as_slice())),
    }
}

impl Variant {
    /// A copy of the whole tree.
    pub fn deep_copy(&self) -> (r: Variant)
        ensures
            same_tree(*self, r),
        decreases self,
    {
        match self {
            Variant::Null => Variant::Null,
            Variant::Scalar(s) => Variant::Scalar(copy_scalar(s)),
            Variant::Index(s) => Variant::Index(copy_scalar(s)),
            Variant::Array(x) => {
                let mut out: Vec<Variant> = Vec::new();
                let mut i: usize = 0;
                while i < x.len()
                    invariant
                        *self == Variant::Array(*x),
                        i <= x@.len(),
                        out@.len() == i,
                        forall|j: int| 0 <= j < i ==> same_tree(#[trigger] x@[j], out@[j]),
                    decreases x@.len() - i,
                {
                    proof {
                        assert(decreases_to!(*self => self->Array_0));
                        assert(decreases_to!(self->Array_0 => self->Array_0[i as int]));
                    }
                    let c = x[i].deep_copy();
                    out.push(c);
                    i = i + 1;
                }
                Variant::Array(out)
            },
            Variant::Table(e) => {
                let mut out: Vec<(SimpleValue, Variant)> = Vec::new();
                let mut i: usize = 0;
                while i < e.len()
                    invariant
                        *self == Variant::Table(*e),
                        i <= e@.len(),
                        out@.len() == i,
                        forall|j: int|
                            0 <= j < i ==> same_value(#[trigger] e@[j].0, out@[j].0) && same_tree(
                                e@[j].1,
                                out@[j].1,
                            ),
                    decreases e@.len() - i,
                {
                    proof {
                        assert(decreases_to!(*self => self->Table_0));
                        assert(decreases_to!(self->Table_0 => self->Table_0[i as int]));
                    }
                    let k = copy_scalar(&e[i].0);
                    let c = e[i].1.deep_copy();
                    out.push((k, c));
                    i = i + 1;
                }
                Variant::Table(out)
            },
        }
    }

    /// The number of children: 0 for Null, 1 for a scalar, none for an index.
    pub fn size(&self) -> (r: Option<usize>)
        ensures
            r matches Some(n) ==> self.size_of() == Some(n as nat),
            r is None ==> self.size_of() is None,
    {
        match self {
            Variant::Null => Some(0),
            Variant::Scalar(_) => Some(1),
            Variant::Array(x) => Some(x.len()),
            Variant::Table(e) => Some(e.len()),
            Variant::Index(_) => None,
        }
    }

    fn position_of(&self, key: &Key) -> (r: Option<usize>)
        ensures
            r matches Some(i) ==> self.position(*key) == Some(i as int),
            r matches Some(i) ==> (self is Array && i < self->Array_0@.len()) || (self is Table && i
                < self->Table_0@.len()),
            r is None ==> self.position(*key) is None,
    {
        match (self, key) {
            (Variant::Array(x), Key::Position(n)) => {
                if *n < x.len() {
                    Some(*n)
                } else {
                    None
                }
            },
            (_, Key::ByScalar(s)) => self.scalar_position(s),
            _ => None,
        }
    }

    fn scalar_position(&self, key: &SimpleValue) -> (r: Option<usize>)
        ensures
            r matches Some(i) ==> self.position(Key::ByScalar(*key)) == Some(i as int),
            r matches Some(i) ==> (self is Array && i < self->Array_0@.len()) || (self is Table && i
                < self->Table_0@.len()),
            r is None ==> self.position(Key::ByScalar(*key)) is None,
    {
        match (self, key) {
            (Variant::Array(x), SimpleValue::Integer(n)) => {
                if 0 <= *n && *n < x.len() as i128 {
                    Some(*n as usize)
                } else {
                    None
                }
            },
            (Variant::Table(e), _) => find_entry(e, key),
            _ => None,
        }
    }

    /// The child that a key resolves to, if any.
    pub fn locate(&self, key: &Key) -> (r: Option<&Variant>)
        ensures
            r is Some <==> self.child(*key) is Some,
            r is Some ==> *r->Some_0 == self.child(*key)->Some_0,
    {
        match self.position_of(key) {
            Some(i) => match self {
                Variant::Array(x) => Some(&x[i]),
                Variant::Table(e) => Some(&e[i].1),
                _ => None,
            },
            None => None,
        }
    }

    /// The child that a scalar key resolves to, borrowed.
    pub fn get_ref(&self, key: &SimpleValue) -> (r: Option<&Variant>)
        ensures
            r is Some <==> self.child(Key::ByScalar(*key)) is Some,
            r is Some ==> *r->Some_0 == self.child(Key::ByScalar(*key))->Some_0,
    {
        match self.scalar_position(key) {
            Some(i) => match self {
                Variant::Array(x) => Some(&x[i]),
                Variant::Table(e) => Some(&e[i].1),
                _ => None,
            },
            None => None,
        }
    }

    /// A copy of the child that a scalar key resolves to; fails with
    /// `Absent` when the key does not resolve.
    pub fn get(&self, key: &SimpleValue) -> (r: Result<Variant, Exception>)
        ensures
            self.child(Key::ByScalar(*key)) matches Some(c) ==> r is Ok && same_tree(c, r->Ok_0),
            self.child(Key::ByScalar(*key)) is None ==> r is Err && r->Err_0.kind
                == ErrorKind::Absent,
    {
        match self.get_ref(key) {
            Some(c) => Ok(c.deep_copy()),
            None => Err(Exception::absent()),
        }
    }

    /// Replaces the child that a scalar key resolves to and returns the
    /// previous one; fails with `Absent`, changing nothing, when the key
    /// does not resolve.
    pub fn put(&mut self, key: &SimpleValue, v: Variant) -> (r: Result<Variant, Exception>)
        ensures
            old(self).position(Key::ByScalar(*key)) matches Some(i) ==> r == Ok::<
                Variant,
                Exception,
            >(old(self).child_at(i)) && old(self).replaced(*final(self), i, v),
            old(self).position(Key::ByScalar(*key)) is None ==> r is Err && r->Err_0.kind
                == ErrorKind::Absent && *final(self) == *old(self),
            old(self).wf() ==> final(self).wf(),
    {
        match self.scalar_position(key) {
            Some(i) => match self {
                Variant::Array(x) => {
                    let ghost before = x@;
                    let prior = x.remove(i);
                    x.insert(i, v);
                    assert(x@ =~= before.update(i as int, v));
                    Ok(prior)
                },
                Variant::Table(e) => {
                    let ghost before = e@;
                    let (k, prior) = e.remove(i);
                    e.insert(i, (k, v));
                    assert(e@ =~= before.update(i as int, (before[i as int].0, v)));
                    assert forall|a: int, b: int| 0 <= a < b < e@.len() implies scalar_cmp(
                        #[trigger] e@[a].0,
                        #[trigger] e@[b].0,
                    ) == scalar_cmp(before[a].0, before[b].0) by {}
                    Ok(prior)
                },
                _ => Err(Exception::absent()),
            },
            None => Err(Exception::absent()),
        }
    }

    /// Removes the child that a scalar key resolves to and returns it. An
    /// array takes an in-bounds integer position (else `Invalid`); a table
    /// takes a present key (else `Absent`); other kinds fail with `Invalid`.
    /// A failure changes nothing.
    pub fn delete(&mut self, key: &SimpleValue) -> (r: Result<Variant, Exception>)
        ensures
            old(self).position(Key::ByScalar(*key)) matches Some(i) ==> r == Ok::<
                Variant,
                Exception,
            >(old(self).child_at(i)) && old(self).removed(*final(self), i),
            old(self).position(Key::ByScalar(*key)) is None ==> r is Err && *final(self) == *old(
                self,
            ),
            old(self).position(Key::ByScalar(*key)) is None && (*old(self)) is Table ==> r->Err_0.kind
                == ErrorKind::Absent,
            old(self).position(Key::ByScalar(*key)) is None && !((*old(self)) is Table)
                ==> r->Err_0.kind == ErrorKind::Invalid,
            old(self).wf() ==> final(self).wf(),
    {
        let pos = self.scalar_position(key);
        match self {
            Variant::Array(x) => match pos {
                Some(i) => Ok(x.remove(i)),
                None => Err(Exception::invalid()),
            },
            Variant::Table(e) => match pos {
                Some(i) => {
                    let ghost before = e@;
                    let (_, prior) = e.remove(i);
                    proof {
                        if table_sorted(before) {
                            assert forall|a: int, b: int| 0 <= a < b < e@.len() implies scalar_cmp(
                                #[trigger] e@[a].0,
                                #[trigger] e@[b].0,
                            ) == Ordering::Less by {
                                let a0 = if a < i { a } else { a + 1 };
                                let b0 = if b < i { b } else { b + 1 };
                                assert(e@[a] == before[a0] && e@[b] == before[b0]);
                            }
                        }
                    }
                    Ok(prior)
                },
                None => Err(Exception::absent()),
            },
            _ => Err(Exception::invalid()),
        }
    }

    /// Adds `v` to a growable value under a new key, which it returns as a
    /// scalar: an array appends and answers its new length (one more than
    /// the position of `v`); a table stores `v` under the text `fresh`.
    /// Other kinds fail with `Invalid` and change nothing.
    pub fn new_keyed(&mut self, v: Variant, fresh: String) -> (r: Result<Variant, Exception>)
        ensures
            (*old(self)) is Array ==> (*final(self)) is Array && final(self)->Array_0@ == old(
                self,
            )->Array_0@.push(v) && r == Ok::<Variant, Exception>(
                Variant::Scalar(SimpleValue::Integer(final(self)->Array_0@.len() as i128)),
            ),
            (*old(self)) is Table ==> old(self).inserted(*final(self), SimpleValue::Text(fresh), v)
                && r == Ok::<Variant, Exception>(Variant::Scalar(SimpleValue::Text(fresh))),
            old(self).wf() ==> final(self).wf(),
            !((*old(self)) is Array || (*old(self)) is Table) ==> r is Err && r->Err_0.kind
                == ErrorKind::Invalid && *final(self) == *old(self),
    {
        match self {
            Variant::Array(x) => {
                x.push(v);
                Ok(Variant::Scalar(SimpleValue::Integer(x.len() as i128)))
            },
            Variant::Table(e) => {
                let answer = fresh.clone();
                table_insert(e, SimpleValue::Text(fresh), v);
                Ok(Variant::Scalar(SimpleValue::Text(answer)))
            },
            _ => Err(Exception::invalid()),
        }
    }

    /// Adds `v` to a growable value under a new key, which it returns as a
    /// scalar: an array appends and answers its new length; a table stores
    /// `v` under a freshly generated text key. Other kinds fail with
    /// `Invalid` and change nothing.
    pub fn new(&mut self, v: Variant) -> (r: Result<Variant, Exception>)
        ensures
            (*old(self)) is Array ==> (*final(self)) is Array && final(self)->Array_0@ == old(
                self,
            )->Array_0@.push(v) && r == Ok::<Variant, Exception>(
                Variant::Scalar(SimpleValue::Integer(final(self)->Array_0@.len() as i128)),
            ),
            (*old(self)) is Table ==> r is Ok && r->Ok_0 is Scalar && r->Ok_0->Scalar_0 is Text
                && old(self).inserted(*final(self), r->Ok_0->Scalar_0, v) && exists|b: Seq<u8>|
                b.len() == 16 && r->Ok_0->Scalar_0->Text_0@ == base64url_nopad(b),
            old(self).wf() ==> final(self).wf(),
            !((*old(self)) is Array || (*old(self)) is Table) ==> r is Err && r->Err_0.kind
                == ErrorKind::Invalid && *final(self) == *old(self),
    {
        let fresh = match self {
            Variant::Table(_) => generate_key(),
            _ => String::new(),
        };
        self.new_keyed(v, fresh)
    }

    /// The child that a key resolves to, mutably borrowed. With
    /// `create_if_absent`, a scalar key that a table lacks is first stored
    /// with a Null value, and that value is lent.
    pub fn locate_mut(&mut self, key: Key, create_if_absent: bool) -> (r: Option<&mut Variant>)
        ensures
            old(self).position(key) matches Some(i) ==> r.is_some() && *r.unwrap()
                == old(self).child_at(i) && old(self).replaced(*final(self), i, *final(r.unwrap())),
            old(self).position(key) is None && create_if_absent && (*old(self)) is Table
                && key is ByScalar ==> r.is_some() && *r.unwrap() == Variant::Null && old(
                self,
            ).inserted(*final(self), key->ByScalar_0, *final(r.unwrap())),
            old(self).position(key) is None && !(create_if_absent && (*old(self)) is Table
                && key is ByScalar) ==> r.is_none() && *final(self) == *old(self),
    {
        let pos = self.position_of(&key);
        match self {
            Variant::Array(x) => match pos {
                Some(i) => Some(&mut x[i]),
                None => None,
            },
            Variant::Table(e) => match pos {
                Some(i) => Some(entry_value_mut(e, i)),
                None => match key {
                    Key::ByScalar(s) => {
                        if create_if_absent {
                            Some(create_entry(e, s))
                        } else {
                            None
                        }
                    },
                    Key::Position(_) => None,
                },
            },
            _ => None,
        }
    }

    /// The child that a scalar key resolves to, mutably borrowed; a table
    /// key that is absent is not created.
    pub fn get_mut(&mut self, key: SimpleValue) -> (r: Option<&mut Variant>)
        ensures
            old(self).position(Key::ByScalar(key)) matches Some(i) ==> r.is_some() && *r.unwrap()
                == old(self).child_at(i) && old(self).replaced(*final(self), i, *final(r.unwrap())),
            old(self).position(Key::ByScalar(key)) is None ==> r.is_none() && *final(self) == *old(
                self,
            ),
    {
        self.locate_mut(Key::ByScalar(key), false)
    }

    /// Runs `f` on the child that a scalar key resolves to and answers what
    /// `f` answers; fails with `Absent`, without running `f`, when the key
    /// does not resolve.
    pub fn with<F>(&self, key: &SimpleValue, f: F) -> (r: Result<Variant, Exception>) where
        F: FnOnce(&Variant) -> Result<Variant, Exception>,

        requires
            forall|c: &Variant| #[trigger] f.requires((c,)),
        ensures
            self.child(Key::ByScalar(*key)) matches Some(c) ==> f.ensures((&c,), r),
            self.child(Key::ByScalar(*key)) is None ==> r is Err && r->Err_0.kind
                == ErrorKind::Absent,
    {
        match self.get_ref(key) {
            Some(c) => f(c),
            None => Err(Exception::absent()),
        }
    }

    /// Runs `f` on the child that a scalar key resolves to, mutably
    /// borrowed, and answers what `f` answers; fails with `Absent`, without
    /// running `f` or changing anything, when the key does not resolve.
    pub fn with_mut<F>(&mut self, key: SimpleValue, f: F) -> (r: Result<Variant, Exception>) where
        F: FnOnce(&mut Variant) -> Result<Variant, Exception>,

        requires
            forall|c: &mut Variant| #[trigger] f.requires((c,)),
        ensures
            old(self).position(Key::ByScalar(key)) matches Some(i) ==> exists|c: &mut Variant|
                *c == old(self).child_at(i) && #[trigger] f.ensures((c,), r) && old(
                self,
            ).replaced(*final(self), i, *final(c)),
            old(self).position(Key::ByScalar(key)) is None ==> r is Err && r->Err_0.kind
                == ErrorKind::Absent && *final(self) == *old(self),
    {
        match self.get_mut(key) {
            Some(c) => f(c),
            None => Err(Exception::absent()),
        }
    }

    /// The child that a scalar key resolves to; the key must resolve.
    pub fn index(&self, key: &SimpleValue) -> (r: &Variant)
        requires
            self.child(Key::ByScalar(*key)) is Some,
        ensures
            *r == self.child(Key::ByScalar(*key))->Some_0,
    {
        match self.get_ref(key) {
            Some(c) => c,
            None => self,
        }
    }

    /// The child that a scalar key resolves to, mutably borrowed; the key
    /// must resolve.
    pub fn index_mut(&mut self, key: SimpleValue) -> (r: &mut Variant)
        requires
            old(self).position(Key::ByScalar(key)) is Some,
        ensures
            *r == old(self).child_at(old(self).position(Key::ByScalar(key))->Some_0),
            old(self).replaced(
                *final(self),
                old(self).position(Key::ByScalar(key))->Some_0,
                *final(r),
            ),
    {
        self.get_mut(key).unwrap()
    }
}

/// A put on a key that an ordered table holds leaves the keys as they were,
/// so a key that is not a NaN still matches exactly one entry, which now
/// holds the new value.
pub proof fn lemma_put_single_entry(before: Variant, after: Variant, key: SimpleValue, v: Variant)
    requires
        before is Table,
        table_sorted(before->Table_0@),
        !is_nan_value(key),
        before.position(Key::ByScalar(key)) is Some,
        before.replaced(after, before.position(Key::ByScalar(key))->Some_0, v),
    ensures
        after is Table,
        table_sorted(after->Table_0@),
        after.position(Key::ByScalar(key)) == before.position(Key::ByScalar(key)),
        after.child(Key::ByScalar(key)) == Some(v),
        forall|j: int|
            0 <= j < after->Table_0@.len() && scalar_cmp(#[trigger] after->Table_0@[j].0, key)
                == Ordering::Equal ==> j == before.position(Key::ByScalar(key))->Some_0,
{
    let e = before->Table_0@;
    let f = after->Table_0@;
    let i = before.position(Key::ByScalar(key))->Some_0;
    lemma_first_match_some(e, key, 0);
    assert(forall|j: int| 0 <= j < f.len() ==> f[j].0 == e[j].0);
    lemma_first_match_same_keys(e, f, key, 0);
    assert forall|j: int|
        0 <= j < f.len() && scalar_cmp(#[trigger] f[j].0, key) == Ordering::Equal implies j
        == i by {
        lemma_sorted_table_single_match(e, key, i, j);
    }
}

/// In a table whose keys are strictly increasing, a key that is not a NaN
/// matches at most one entry.
pub proof fn lemma_sorted_table_single_match(
    e: Seq<(SimpleValue, Variant)>,
    key: SimpleValue,
    i: int,
    j: int,
)
    requires
        table_sorted(e),
        !is_nan_value(key),
        0 <= i < e.len(),
        0 <= j < e.len(),
        scalar_cmp(e[i].0, key) == Ordering::Equal,
        scalar_cmp(e[j].0, key) == Ordering::Equal,
    ensures
        i == j,
{
    if i != j {
        let (a, b) = if i < j {
            (e[i].0, e[j].0)
        } else {
            (e[j].0, e[i].0)
        };
        assert(scalar_cmp(a, b) == Ordering::Less);
        lemma_cmp_antisymmetric(b, key);
        match (a, b, key) {
            (SimpleValue::Text(x), SimpleValue::Text(y), SimpleValue::Text(z)) => {
                lemma_lex_equal(text_bytes(x), text_bytes(z));
                lemma_lex_equal(text_bytes(y), text_bytes(z));
                lemma_lex_equal(text_bytes(x), text_bytes(y));
            },
            (SimpleValue::Bytes(x), SimpleValue::Bytes(y), SimpleValue::Bytes(z)) => {
                lemma_lex_equal(x@, z@);
                lemma_lex_equal(y@, z@);
                lemma_lex_equal(x@, y@);
            },
            _ => {},
        }
    }
}

} // verus!
