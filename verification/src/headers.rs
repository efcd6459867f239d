use vstd::prelude::*;

verus! {

/// The bytes of the header name `content-encoding`.
pub open spec fn content_encoding_name() -> Seq<u8> {
    seq![
        99u8, 111u8, 110u8, 116u8, 101u8, 110u8, 116u8, 45u8, 101u8, 110u8, 99u8, 111u8, 100u8,
        105u8, 110u8, 103u8,
    ]
}

/// The bytes of the header name `accept-encoding`.
pub open spec fn accept_encoding_name() -> Seq<u8> {
    seq![
        97u8, 99u8, 99u8, 101u8, 112u8, 116u8, 45u8, 101u8, 110u8, 99u8, 111u8, 100u8, 105u8,
        110u8, 103u8,
    ]
}

/// The bytes of the fixed capability value `gzip, br, deflate, zstd`.
pub open spec fn supported_encodings() -> Seq<u8> {
    seq![
        103u8, 122u8, 105u8, 112u8, 44u8, 32u8, 98u8, 114u8, 44u8, 32u8, 100u8, 101u8, 102u8,
        108u8, 97u8, 116u8, 101u8, 44u8, 32u8, 122u8, 115u8, 116u8, 100u8,
    ]
}

/// The header name `content-encoding`, as bytes.
pub fn content_encoding_bytes() -> (r: Vec<u8>)
    ensures
        r@ == content_encoding_name(),
{
    let mut v: Vec<u8> = Vec::new();
    v.push(99);
    v.push(111);
    v.push(110);
    v.push(116);
    v.push(101);
    v.push(110);
    v.push(116);
    v.push(45);
    v.push(101);
    v.push(110);
    v.push(99);
    v.push(111);
    v.push(100);
    v.push(105);
    v.push(110);
    v.push(103);
    proof {
        assert(v@ =~= content_encoding_name());
    }
    v
}

/// The header name `accept-encoding`, as bytes.
pub fn accept_encoding_bytes() -> (r: Vec<u8>)
    ensures
        r@ == accept_encoding_name(),
{
    let mut v: Vec<u8> = Vec::new();
    v.push(97);
    v.push(99);
    v.push(99);
    v.push(101);
    v.push(112);
    v.push(116);
    v.push(45);
    v.push(101);
    v.push(110);
    v.push(99);
    v.push(111);
    v.push(100);
    v.push(105);
    v.push(110);
    v.push(103);
    proof {
        assert(v@ =~= accept_encoding_name());
    }
    v
}

/// The fixed capability value `gzip, br, deflate, zstd`, as bytes.
pub fn supported_encodings_bytes() -> (r: Vec<u8>)
    ensures
        r@ == supported_encodings(),
{
    let mut v: Vec<u8> = Vec::new();
    v.push(103);
    v.push(122);
    v.push(105);
    v.push(112);
    v.push(44);
    v.push(32);
    v.push(98);
    v.push(114);
    v.push(44);
    v.push(32);
    v.push(100);
    v.push(101);
    v.push(102);
    v.push(108);
    v.push(97);
    v.push(116);
    v.push(101);
    v.push(44);
    v.push(32);
    v.push(122);
    v.push(115);
    v.push(116);
    v.push(100);
    proof {
        assert(v@ =~= supported_encodings());
    }
    v
}

/// The value of the first pair whose name is `name`, if any.
pub open spec fn spec_lookup(hs: Seq<(Seq<u8>, Seq<u8>)>, name: Seq<u8>) -> Option<Seq<u8>>
    decreases hs.len(),
{
    if hs.len() == 0 {
        None
    } else if hs[0].0 == name {
        Some(hs[0].1)
    } else {
        spec_lookup(hs.skip(1), name)
    }
}

/// The pairs that remain once every pair named `name` is removed, in order.
pub open spec fn spec_remove(hs: Seq<(Seq<u8>, Seq<u8>)>, name: Seq<u8>) -> Seq<(Seq<u8>, Seq<u8>)>
    decreases hs.len(),
{
    if hs.len() == 0 {
        Seq::empty()
    } else if hs[0].0 == name {
        spec_remove(hs.skip(1), name)
    } else {
        seq![hs[0]] + spec_remove(hs.skip(1), name)
    }
}

/// Removing a name that no pair carries leaves the header sequence exactly
/// as it was: removal is a no-op on an absent name.
pub proof fn lemma_remove_absent_noop(hs: Seq<(Seq<u8>, Seq<u8>)>, name: Seq<u8>)
    requires
        spec_lookup(hs, name) is None,
    ensures
        spec_remove(hs, name) == hs,
    decreases hs.len(),
{
    if hs.len() == 0 {
        assert(spec_remove(hs, name) =~= hs);
    } else {
        lemma_remove_absent_noop(hs.skip(1), name);
        assert(spec_remove(hs, name) =~= hs);
    }
}

/// After removal the removed name is absent: a lookup of it finds nothing.
pub proof fn lemma_remove_removes(hs: Seq<(Seq<u8>, Seq<u8>)>, name: Seq<u8>)
    ensures
        spec_lookup(spec_remove(hs, name), name) is None,
    decreases hs.len(),
{
    if hs.len() == 0 {
    } else {
        lemma_remove_removes(hs.skip(1), name);
        if hs[0].0 != name {
            assert((seq![hs[0]] + spec_remove(hs.skip(1), name)).skip(1) =~= spec_remove(
                hs.skip(1),
                name,
            ));
        }
    }
}

/// Removal touches nothing else: every other name still looks up to
/// exactly what it did before.
pub proof fn lemma_remove_keeps_others(hs: Seq<(Seq<u8>, Seq<u8>)>, name: Seq<u8>, other: Seq<u8>)
    requires
        other != name,
    ensures
        spec_lookup(spec_remove(hs, name), other) == spec_lookup(hs, other),
    decreases hs.len(),
{
    if hs.len() == 0 {
    } else {
        lemma_remove_keeps_others(hs.skip(1), name, other);
        if hs[0].0 != name {
            assert((seq![hs[0]] + spec_remove(hs.skip(1), name)).skip(1) =~= spec_remove(
                hs.skip(1),
                name,
            ));
            assert((seq![hs[0]] + spec_remove(hs.skip(1), name))[0] == hs[0]);
        }
    }
}

/// Byte-exact comparison of two byte vectors.
fn bytes_eq(a: &Vec<u8>, b: &Vec<u8>) -> (r: bool)
    ensures
        r == (a@ == b@),
{
    if a.len() != b.len() {
        return false;
    }
    let mut i: usize = 0;
    while i < a.len()
        invariant
            i <= a.len(),
            a.len() == b.len(),
            forall|j: int| 0 <= j < i ==> a@[j] == b@[j],
        decreases a.len() - i,
    {
        if a[i] != b[i] {
            return false;
        }
        i += 1;
    }
    proof {
        assert(a@ =~= b@);
    }
    true
}

/// An ordered sequence of header fields, each a name paired with a value.
///
/// Names are matched byte-exactly; callers are expected to hand names in
/// their lowercase form, as the HTTP header names of this library are.
pub struct Headers {
    fields: Vec<(Vec<u8>, Vec<u8>)>,
}

impl View for Headers {
    type V = Seq<(Seq<u8>, Seq<u8>)>;

    closed spec fn view(&self) -> Seq<(Seq<u8>, Seq<u8>)> {
        Seq::new(self.fields@.len(), |i: int| (self.fields@[i].0@, self.fields@[i].1@))
    }
}

impl Headers {
    /// An empty header sequence.
    pub fn new() -> (r: Headers)
        ensures
            r@ == Seq::<(Seq<u8>, Seq<u8>)>::empty(),
    {
        let r = Headers { fields: Vec::new() };
        proof {
            assert(r@ =~= Seq::<(Seq<u8>, Seq<u8>)>::empty());
        }
        r
    }

    /// How many fields the sequence holds.
    pub fn len(&self) -> (r: usize)
        ensures
            r == self@.len(),
    {
        self.fields.len()
    }

    /// The name of the field at `i`.
    pub fn name_at(&self, i: usize) -> (r: &Vec<u8>)
        requires
            i < self@.len(),
        ensures
            r@ == self@[i as int].0,
    {
        &self.fields[i].0
    }

    /// The value of the field at `i`.
    pub fn value_at(&self, i: usize) -> (r: &Vec<u8>)
        requires
            i < self@.len(),
        ensures
            r@ == self@[i as int].1,
    {
        &self.fields[i].1
    }

    /// Appends a field, keeping any fields already named `name`.
    pub fn push(&mut self, name: Vec<u8>, value: Vec<u8>)
        ensures
            final(self)@ == old(self)@.push((name@, value@)),
    {
        let ghost before = self@;
        self.fields.push((name, value));
        proof {
            assert(self@ =~= before.push((name@, value@)));
        }
    }

    /// The value of the first field named `name`, if any is present.
    pub fn get(&self, name: &Vec<u8>) -> (r: Option<&Vec<u8>>)
        ensures
            match r {
                Some(v) => spec_lookup(self@, name@) == Some(v@),
                None => spec_lookup(self@, name@) is None,
            },
    {
        proof {
            assert(self@.skip(0) =~= self@);
        }
        let mut i: usize = 0;
        while i < self.fields.len()
            invariant
                i <= self@.len(),
                spec_lookup(self@, name@) == spec_lookup(self@.skip(i as int), name@),
                forall|j: int| 0 <= j < i ==> self@[j].0 != name@,
            decreases self@.len() - i,
        {
            if bytes_eq(&self.fields[i].0, name) {
                proof {
                    assert(self@.skip(i as int)[0] == self@[i as int]);
                }
                return Some(&self.fields[i].1);
            }
            proof {
                assert(self@.skip(i as int).skip(1) =~= self@.skip(i as int + 1));
                assert(self@.skip(i as int)[0] == self@[i as int]);
            }
            i += 1;
        }
        proof {
            assert(self@.skip(i as int).len() == 0);
        }
        None
    }

    /// Removes every field named `name`; a no-op when none is present.
    pub fn remove(&mut self, name: &Vec<u8>)
        ensures
            final(self)@ == spec_remove(old(self)@, name@),
    {
        let ghost before = self@;
        let mut kept: Vec<(Vec<u8>, Vec<u8>)> = Vec::new();
        proof {
            assert(before.skip(0) =~= before);
            assert(Seq::new(kept@.len(), |j: int| (kept@[j].0@, kept@[j].1@))
                =~= Seq::<(Seq<u8>, Seq<u8>)>::empty());
        }
        let mut i: usize = 0;
        while i < self.fields.len()
            invariant
                i <= self.fields@.len(),
                self@ == before,
                spec_remove(before, name@) =~= Seq::new(
                    kept@.len(),
                    |j: int| (kept@[j].0@, kept@[j].1@),
                ) + spec_remove(before.skip(i as int), name@),
            decreases self.fields@.len() - i,
        {
            let ghost kept_views = Seq::new(kept@.len(), |j: int| (kept@[j].0@, kept@[j].1@));
            proof {
                assert(before.skip(i as int)[0] == before[i as int]);
                assert(before.skip(i as int).skip(1) =~= before.skip(i as int + 1));
            }
            let keep = !bytes_eq(&self.fields[i].0, name);
            if keep {
                let n = copy_bytes(&self.fields[i].0);
                let v = copy_bytes(&self.fields[i].1);
                kept.push((n, v));
                proof {
                    assert(Seq::new(kept@.len(), |j: int| (kept@[j].0@, kept@[j].1@)) =~= kept_views
                        + seq![before[i as int]]);
                    assert(seq![before[i as int]] + spec_remove(before.skip(i as int + 1), name@)
                        =~= spec_remove(before.skip(i as int), name@));
                }
            }
            i += 1;
        }
        proof {
            assert(before.skip(i as int).len() == 0);
            assert(spec_remove(before.skip(i as int), name@) =~= Seq::empty());
        }
        self.fields = kept;
        proof {
            assert(self@ =~= spec_remove(before, name@));
        }
    }

    /// Sets `name` to `value`, overwriting any prior fields of that name:
    /// every old field named `name` goes away and the new one is appended.
    pub fn insert(&mut self, name: Vec<u8>, value: Vec<u8>)
        ensures
            final(self)@ == spec_remove(old(self)@, name@).push((name@, value@)),
    {
        self.remove(&name);
        self.push(name, value);
    }
}

/// A byte-for-byte copy of a byte vector.
pub fn copy_bytes(v: &Vec<u8>) -> (r: Vec<u8>)
    ensures
        r@ == v@,
{
    let mut r: Vec<u8> = Vec::new();
    let mut i: usize = 0;
    while i < v.len()
        invariant
            i <= v.len(),
            r@ == v@.take(i as int),
        decreases v.len() - i,
    {
        r.push(v[i]);
        proof {
            assert(v@.take(i as int).push(v@[i as int]) =~= v@.take(i as int + 1));
        }
        i += 1;
    }
    proof {
        assert(v@.take(v@.len() as int) =~= v@);
    }
    r
}

} // verus!
