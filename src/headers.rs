use vstd::prelude::*;

verus! {

/// ASCII lower case of one byte; other bytes are left alone.
pub open spec fn lower_byte(b: u8) -> u8 {
    if 65 <= b && b <= 90 {
        (b + 32) as u8
    } else {
        b
    }
}

/// ASCII lower case of a byte string: header names compare in this form.
pub open spec fn lower(s: Seq<u8>) -> Seq<u8> {
    s.map_values(|b: u8| lower_byte(b))
}

/// A header list as the contracts see it: (lower-case name, value) pairs.
pub type HeaderList = Seq<(Seq<u8>, Seq<u8>)>;

pub open spec fn has_name(hs: HeaderList, n: Seq<u8>) -> bool {
    exists|i: int| 0 <= i < hs.len() && #[trigger] hs[i].0 == n
}

pub open spec fn index_of_name(hs: HeaderList, n: Seq<u8>) -> int {
    choose|i: int| 0 <= i < hs.len() && #[trigger] hs[i].0 == n
}

/// The value stored under the (already lower-case) name `n`.
pub open spec fn lookup(hs: HeaderList, n: Seq<u8>) -> Option<Seq<u8>> {
    if has_name(hs, n) {
        Some(hs[index_of_name(hs, n)].1)
    } else {
        None
    }
}

/// The list after setting `n` to `v`: an existing entry is overwritten in place,
/// otherwise the pair is appended.
pub open spec fn with_header(hs: HeaderList, n: Seq<u8>, v: Seq<u8>) -> HeaderList {
    if has_name(hs, n) {
        hs.update(index_of_name(hs, n), (n, v))
    } else {
        hs.push((n, v))
    }
}

/// Names are stored in lower case, and each at most once.
pub open spec fn header_list_wf(hs: HeaderList) -> bool {
    &&& forall|i: int| 0 <= i < hs.len() ==> lower(#[trigger] hs[i].0) == hs[i].0
    &&& forall|i: int, j: int|
        0 <= i < j < hs.len() ==> #[trigger] hs[i].0 != #[trigger] hs[j].0
}

/// A field value as HTTP/1.1 allows it: tabs, spaces, visible ASCII and
/// bytes from 0x80 up, with no white space at either end.
pub open spec fn is_field_byte(b: u8) -> bool {
    b == 9 || (32 <= b && b <= 126) || b >= 128
}

pub open spec fn is_blank(b: u8) -> bool {
    b == 9 || b == 32
}

pub open spec fn valid_header_value(v: Seq<u8>) -> bool {
    &&& forall|i: int| 0 <= i < v.len() ==> is_field_byte(#[trigger] v[i])
    &&& v.len() > 0 ==> !is_blank(v[0]) && !is_blank(v.last())
}

/// An HTTP header collection with case-insensitive names.
pub struct Headers {
    entries: Vec<(Vec<u8>, Vec<u8>)>,
}

impl View for Headers {
    type V = HeaderList;

    closed spec fn view(&self) -> HeaderList {
        self.entries@.map_values(|e: (Vec<u8>, Vec<u8>)| (e.0@, e.1@))
    }
}

pub fn copy_bytes(v: &Vec<u8>) -> (r: Vec<u8>)
    ensures
        r@ == v@,
{
    let r = v.clone();
    assert(r@ =~= v@);
    r
}

pub fn to_lower(s: &[u8]) -> (r: Vec<u8>)
    ensures
        r@ == lower(s@),
{
    let mut r: Vec<u8> = Vec::new();
    let mut i: usize = 0;
    while i < s.len()
        invariant
            i <= s@.len(),
            r@ == lower(s@.subrange(0, i as int)),
        decreases s@.len() - i,
    {
        let b = s[i];
        let c: u8 = if 65 <= b && b <= 90 {
            b + 32
        } else {
            b
        };
        r.push(c);
        i = i + 1;
        assert(lower(s@.subrange(0, i as int)) =~= lower(s@.subrange(0, (i - 1) as int)).push(c));
    }
    assert(s@.subrange(0, s@.len() as int) =~= s@);
    r
}

pub fn bytes_eq(a: &[u8], b: &[u8]) -> (r: bool)
    ensures
        r == (a@ == b@),
{
    if a.len() != b.len() {
        return false;
    }
    let mut i: usize = 0;
    while i < a.len()
        invariant
            i <= a@.len(),
            a@.len() == b@.len(),
            forall|k: int| 0 <= k < i ==> a@[k] == b@[k],
        decreases a@.len() - i,
    {
        if a[i] != b[i] {
            return false;
        }
        i = i + 1;
    }
    assert(a@ =~= b@);
    true
}

/// Checks a header value: only field bytes, no white space at either end.
pub fn is_valid_header_value(v: &[u8]) -> (r: bool)
    ensures
        r == valid_header_value(v@),
{
    let mut i: usize = 0;
    while i < v.len()
        invariant
            i <= v@.len(),
            forall|k: int| 0 <= k < i ==> is_field_byte(#[trigger] v@[k]),
        decreases v@.len() - i,
    {
        let b = v[i];
        if !(b == 9 || (32 <= b && b <= 126) || b >= 128) {
            return false;
        }
        i = i + 1;
    }
    if v.len() > 0 {
        let first = v[0];
        let last = v[v.len() - 1];
        if first == 9 || first == 32 || last == 9 || last == 32 {
            return false;
        }
    }
    true
}

impl Headers {
    pub open spec fn wf(&self) -> bool {
        header_list_wf(self@)
    }

    pub fn new() -> (r: Headers)
        ensures
            r@ == Seq::<(Seq<u8>, Seq<u8>)>::empty(),
            r.wf(),
    {
        let r = Headers { entries: Vec::new() };
        assert(r@ =~= Seq::<(Seq<u8>, Seq<u8>)>::empty());
        r
    }

    pub fn len(&self) -> (r: usize)
        ensures
            r == self@.len(),
    {
        self.entries.len()
    }

    /// Position of the entry named `n` (lower case), if any.
    fn position(&self, n: &Vec<u8>) -> (r: Option<usize>)
        requires
            self.wf(),
        ensures
            match r {
                Some(i) => i < self@.len() && self@[i as int].0 == n@ && i == index_of_name(
                    self@,
                    n@,
                ),
                None => !has_name(self@, n@),
            },
    {
        let mut i: usize = 0;
        while i < self.entries.len()
            invariant
                i <= self@.len(),
                self.wf(),
                self@.len() == self.entries@.len(),
                forall|k: int| 0 <= k < i ==> #[trigger] self@[k].0 != n@,
            decreases self@.len() - i,
        {
            if bytes_eq(self.entries[i].0.as_slice(), n.as_slice()) {
                assert(self@[i as int].0 == n@);
                proof {
                    let j = index_of_name(self@, n@);
                    assert(has_name(self@, n@));
                    assert(self@[j].0 == n@);
                    assert(0 <= j < self@.len());
                    if j < i {
                        assert(self@[j].0 != n@);
                    } else if j > i {
                        assert(self@[i as int].0 != self@[j].0);
                    }
                }
                return Some(i);
            }
            i = i + 1;
        }
        None
    }

    /// Whether a header named `name` (in any case) is present.
    pub fn contains(&self, name: &[u8]) -> (r: bool)
        requires
            self.wf(),
        ensures
            r == has_name(self@, lower(name@)),
    {
        let n = to_lower(name);
        self.position(&n).is_some()
    }

    /// The value of the header named `name` (in any case).
    pub fn get(&self, name: &[u8]) -> (r: Option<Vec<u8>>)
        requires
            self.wf(),
        ensures
            match r {
                Some(v) => lookup(self@, lower(name@)) == Some(v@),
                None => lookup(self@, lower(name@)) is None,
            },
    {
        let n = to_lower(name);
        match self.position(&n) {
            Some(i) => Some(copy_bytes(&self.entries[i].1)),
            None => None,
        }
    }

    /// Sets the header named `name` to `value`, replacing an earlier value.
    pub fn set(&mut self, name: &[u8], value: Vec<u8>)
        requires
            old(self).wf(),
        ensures
            final(self).wf(),
            final(self)@ == with_header(old(self)@, lower(name@), value@),
    {
        let n = to_lower(name);
        proof {
            lemma_lower_idempotent(name@);
        }
        match self.position(&n) {
            Some(i) => {
                let ghost before = self@;
                self.entries.set(i, (n, value));
                assert(self@ =~= with_header(before, lower(name@), value@));
            },
            None => {
                let ghost before = self@;
                self.entries.push((n, value));
                assert(self@ =~= with_header(before, lower(name@), value@));
            },
        }
    }

    /// A copy of this collection with the same entries.
    pub fn copy(&self) -> (r: Headers)
        ensures
            r@ == self@,
    {
        let mut entries: Vec<(Vec<u8>, Vec<u8>)> = Vec::new();
        let mut i: usize = 0;
        while i < self.entries.len()
            invariant
                i <= self.entries@.len(),
                entries@.len() == i,
                forall|k: int|
                    0 <= k < i ==> (#[trigger] entries@[k]).0@ == self.entries@[k].0@
                        && entries@[k].1@ == self.entries@[k].1@,
            decreases self.entries@.len() - i,
        {
            let e = &self.entries[i];
            entries.push((copy_bytes(&e.0), copy_bytes(&e.1)));
            i = i + 1;
        }
        let r = Headers { entries };
        assert(r@ =~= self@);
        r
    }
}

pub proof fn lemma_lower_idempotent(s: Seq<u8>)
    ensures
        lower(lower(s)) == lower(s),
{
    assert(lower(lower(s)) =~= lower(s));
}

} // verus!
