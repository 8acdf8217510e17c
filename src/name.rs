//! Domain names: text form, wire form, and comparison that ignores ASCII case.
use vstd::prelude::*;
use crate::error::SimpleDnsError;
use vstd::string::StringSliceAdditionalSpecFns;

verus! {

/// The labels of dotted text `s`: the pieces between dots, empty ones included.
pub open spec fn split_dots(s: Seq<u8>) -> Seq<Seq<u8>>
    decreases s.len(),
{
    if s.len() == 0 {
        seq![Seq::empty()]
    } else {
        let p = split_dots(s.drop_last());
        if s.last() == 46u8 {
            p.push(Seq::empty())
        } else {
            p.update(p.len() - 1, p.last().push(s.last()))
        }
    }
}

/// The wire image of labels: each label after its length byte, then a zero byte.
pub open spec fn labels_wire(labels: Seq<Seq<u8>>) -> Seq<u8>
    decreases labels.len(),
{
    if labels.len() == 0 {
        seq![0u8]
    } else {
        seq![labels[0].len() as u8] + labels[0] + labels_wire(labels.drop_first())
    }
}

/// Every label holds 1 to 63 bytes and the wire image is at most 255 bytes.
pub open spec fn labels_wf(labels: Seq<Seq<u8>>) -> bool {
    &&& forall|i: int| 0 <= i < labels.len() ==> 1 <= #[trigger] labels[i].len() <= 63
    &&& labels_wire(labels).len() <= 255
}

/// An ASCII letter in lower case; other bytes as they are.
pub open spec fn lower(b: u8) -> u8 {
    if 65 <= b <= 90 { (b + 32) as u8 } else { b }
}

/// Two labels equal but for ASCII case.
pub open spec fn label_eq(a: Seq<u8>, b: Seq<u8>) -> bool {
    a.len() == b.len() && forall|i: int| 0 <= i < a.len() ==> lower(#[trigger] a[i]) == lower(b[i])
}

/// Two names equal but for ASCII case, label by label.
pub open spec fn names_eq(a: Seq<Seq<u8>>, b: Seq<Seq<u8>>) -> bool {
    a.len() == b.len() && forall|i: int| 0 <= i < a.len() ==> label_eq(#[trigger] a[i], b[i])
}

/// A domain name, as its labels.
#[derive(Debug, Clone)]
pub struct Name {
    labels: Vec<Vec<u8>>,
}

impl View for Name {
    type V = Seq<Seq<u8>>;

    closed spec fn view(&self) -> Seq<Seq<u8>> {
        self.labels@.map_values(|l: Vec<u8>| l@)
    }
}

pub(crate) fn lower_byte(b: u8) -> (r: u8)
    ensures
        r == lower(b),
{
    if 65 <= b && b <= 90 { b + 32 } else { b }
}

fn label_matches(a: &Vec<u8>, b: &Vec<u8>) -> (r: bool)
    ensures
        r == label_eq(a@, b@),
{
    if a.len() != b.len() {
        return false;
    }
    let mut i: usize = 0;
    while i < a.len()
        invariant
            a@.len() == b@.len(),
            i <= a@.len(),
            forall|j: int| 0 <= j < i ==> lower(#[trigger] a@[j]) == lower(b@[j]),
        decreases a@.len() - i,
    {
        if lower_byte(a[i]) != lower_byte(b[i]) {
            return false;
        }
        i = i + 1;
    }
    true
}

impl Name {
    /// A name made of the given labels, unchecked.
    pub(crate) fn from_labels(labels: Vec<Vec<u8>>) -> (r: Name)
        ensures
            r@ == labels@.map_values(|l: Vec<u8>| l@),
    {
        Name { labels }
    }

    /// Reads a dotted name such as `_srv._tcp.local`.
    pub fn new(text: &str) -> (r: Result<Name, SimpleDnsError>)
        ensures
            r is Ok <==> labels_wf(split_dots(text.spec_bytes())),
            r matches Ok(n) ==> n@ == split_dots(text.spec_bytes()),
            r is Err ==> r == Err::<Name, SimpleDnsError>(SimpleDnsError::InvalidServiceName),
    {
        let b = text.as_bytes();
        let mut labels: Vec<Vec<u8>> = Vec::new();
        let mut cur: Vec<u8> = Vec::new();
        let mut i: usize = 0;
        while i < b.len()
            invariant
                i <= b@.len(),
                labels@.map_values(|l: Vec<u8>| l@).push(cur@) == split_dots(b@.subrange(0, i as int)),
            decreases b@.len() - i,
        {
            let ghost before = labels@.map_values(|l: Vec<u8>| l@).push(cur@);
            assert(b@.subrange(0, i + 1).drop_last() =~= b@.subrange(0, i as int));
            if b[i] == 46u8 {
                let done = cur;
                labels.push(done);
                cur = Vec::new();
                assert(labels@.map_values(|l: Vec<u8>| l@).push(cur@) =~= before.push(Seq::empty()));
            } else {
                cur.push(b[i]);
                assert(labels@.map_values(|l: Vec<u8>| l@).push(cur@) =~= before.update(before.len() - 1, before.last().push(b@[i as int])));
            }
            i = i + 1;
        }
        assert(b@.subrange(0, b@.len() as int) =~= b@);
        labels.push(cur);
        let n = Name { labels };
        assert(n@ =~= split_dots(text.spec_bytes()));
        if n.is_wf() {
            Ok(n)
        } else {
            Err(SimpleDnsError::InvalidServiceName)
        }
    }

    /// Whether the labels make a valid name.
    pub fn is_wf(&self) -> (r: bool)
        ensures
            r == labels_wf(self@),
    {
        let mut i: usize = 0;
        let mut total: usize = 1;
        assert(self@.subrange(0, self@.len() as int) =~= self@);
        while i < self.labels.len()
            invariant
                i <= self.labels@.len(),
                self@.len() == self.labels@.len(),
                forall|j: int| 0 <= j < i ==> 1 <= #[trigger] self@[j].len() <= 63,
                total <= 256,
                total + labels_wire(self@.subrange(i as int, self@.len() as int)).len()
                    == labels_wire(self@).len() + 1,
            decreases self.labels@.len() - i,
        {
            let l = self.labels[i].len();
            assert(self@[i as int] == self.labels@[i as int]@);
            if l < 1 || l > 63 {
                return false;
            }
            let ghost rest = self@.subrange(i as int, self@.len() as int);
            assert(rest.drop_first() =~= self@.subrange(i + 1, self@.len() as int));
            assert(rest[0] == self@[i as int]);
            proof { lemma_labels_wire_len(self@.subrange(i + 1, self@.len() as int)); }
            total = total + l + 1;
            if total > 255 {
                return false;
            }
            i = i + 1;
        }
        assert(self@.subrange(self@.len() as int, self@.len() as int) =~= Seq::<Seq<u8>>::empty());
        assert(labels_wire(Seq::<Seq<u8>>::empty()).len() == 1);
        total <= 255
    }

    /// Whether the two names are equal but for ASCII case.
    pub fn matches(&self, other: &Name) -> (r: bool)
        ensures
            r == names_eq(self@, other@),
    {
        assert(self@.len() == self.labels@.len());
        assert(other@.len() == other.labels@.len());
        if self.labels.len() != other.labels.len() {
            return false;
        }
        let mut i: usize = 0;
        while i < self.labels.len()
            invariant
                self.labels@.len() == other.labels@.len(),
                self@.len() == self.labels@.len(),
                other@.len() == other.labels@.len(),
                i <= self@.len(),
                forall|j: int| 0 <= j < i ==> label_eq(#[trigger] self@[j], other@[j]),
            decreases self@.len() - i,
        {
            assert(self@[i as int] == self.labels@[i as int]@);
            assert(other@[i as int] == other.labels@[i as int]@);
            if !label_matches(&self.labels[i], &other.labels[i]) {
                return false;
            }
            i = i + 1;
        }
        true
    }

    /// Appends the wire image of the name to `out`.
    pub fn append_to_vec(&self, out: &mut Vec<u8>)
        requires
            labels_wf(self@),
        ensures
            final(out)@ == old(out)@ + labels_wire(self@),
    {
        let ghost start = out@;
        let mut i: usize = 0;
        assert(self@.subrange(0, self@.len() as int) =~= self@);
        while i < self.labels.len()
            invariant
                labels_wf(self@),
                i <= self.labels@.len(),
                self@.len() == self.labels@.len(),
                out@ + labels_wire(self@.subrange(i as int, self@.len() as int)) == start + labels_wire(self@),
            decreases self.labels@.len() - i,
        {
            let ghost rest = self@.subrange(i as int, self@.len() as int);
            assert(rest.drop_first() =~= self@.subrange(i + 1, self@.len() as int));
            assert(rest[0] == self.labels@[i as int]@);
            assert(1 <= self@[i as int].len() <= 63);
            let l = &self.labels[i];
            out.push(l.len() as u8);
            let mut k: usize = 0;
            let ghost mid = out@;
            while k < l.len()
                invariant
                    k <= l@.len(),
                    out@ == mid + l@.subrange(0, k as int),
                decreases l@.len() - k,
            {
                out.push(l[k]);
                assert(out@ =~= mid + l@.subrange(0, k + 1));
                k = k + 1;
            }
            assert(l@.subrange(0, l@.len() as int) =~= l@);
            assert(labels_wire(rest) == seq![rest[0].len() as u8] + rest[0] + labels_wire(rest.drop_first()));
            assert(out@ + labels_wire(self@.subrange(i + 1, self@.len() as int)) =~= mid.drop_last() + labels_wire(rest));
            i = i + 1;
        }
        assert(self@.subrange(self@.len() as int, self@.len() as int) =~= Seq::<Seq<u8>>::empty());
        out.push(0u8);
        assert(out@ =~= start + labels_wire(self@));
    }

    /// The length of the name's wire image.
    pub fn len(&self) -> (r: usize)
        requires
            labels_wf(self@),
        ensures
            r == labels_wire(self@).len(),
    {
        let mut i: usize = 0;
        let mut total: usize = 1;
        assert(self@.subrange(0, self@.len() as int) =~= self@);
        while i < self.labels.len()
            invariant
                labels_wf(self@),
                i <= self.labels@.len(),
                self@.len() == self.labels@.len(),
                total + labels_wire(self@.subrange(i as int, self@.len() as int)).len()
                    == labels_wire(self@).len() + 1,
            decreases self.labels@.len() - i,
        {
            let ghost rest = self@.subrange(i as int, self@.len() as int);
            assert(rest.drop_first() =~= self@.subrange(i + 1, self@.len() as int));
            assert(rest[0] == self.labels@[i as int]@);
            proof { lemma_labels_wire_len(self@.subrange(i + 1, self@.len() as int)); }
            total = total + self.labels[i].len() + 1;
            i = i + 1;
        }
        assert(self@.subrange(self@.len() as int, self@.len() as int) =~= Seq::<Seq<u8>>::empty());
        assert(labels_wire(Seq::<Seq<u8>>::empty()).len() == 1);
        total
    }
}

pub proof fn lemma_labels_wire_len(labels: Seq<Seq<u8>>)
    ensures
        labels_wire(labels).len() >= 1,
    decreases labels.len(),
{
    if labels.len() > 0 {
        lemma_labels_wire_len(labels.drop_first());
    }
}

} // verus!
