//! The short lists of an object: projected fields, labels and annotations, each
//! kept inline by `smallvec`.
use smallvec::SmallVec;
use vstd::prelude::*;

verus! {

/// Projected fields of an object: pairs of a column and its text.
#[verifier::external_body]
pub struct ProjectedVec {
    inner: SmallVec<[(u32, String); 8]>,
}

/// The labels of an object.
#[verifier::external_body]
pub struct LabelVec {
    inner: SmallVec<[(String, String); 8]>,
}

/// The annotations of an object.
#[verifier::external_body]
pub struct AnnotationVec {
    inner: SmallVec<[(String, String); 4]>,
}

/// What a list of projected fields holds, in order.
pub uninterp spec fn projected_items(v: ProjectedVec) -> Seq<(u32, Seq<char>)>;

/// What a list of labels holds, in order.
pub uninterp spec fn label_items(v: LabelVec) -> Seq<(Seq<char>, Seq<char>)>;

/// What a list of annotations holds, in order.
pub uninterp spec fn annotation_items(v: AnnotationVec) -> Seq<(Seq<char>, Seq<char>)>;

impl View for ProjectedVec {
    type V = Seq<(u32, Seq<char>)>;

    open spec fn view(&self) -> Seq<(u32, Seq<char>)> {
        projected_items(*self)
    }
}

impl View for LabelVec {
    type V = Seq<(Seq<char>, Seq<char>)>;

    open spec fn view(&self) -> Seq<(Seq<char>, Seq<char>)> {
        label_items(*self)
    }
}

impl View for AnnotationVec {
    type V = Seq<(Seq<char>, Seq<char>)>;

    open spec fn view(&self) -> Seq<(Seq<char>, Seq<char>)> {
        annotation_items(*self)
    }
}

impl ProjectedVec {
    /// `SmallVec::new`: a list that holds nothing.
    #[verifier::external_body]
    pub(crate) fn empty() -> (r: ProjectedVec)
        ensures
            projected_items(r) == Seq::<(u32, Seq<char>)>::empty(),
    {
        ProjectedVec { inner: SmallVec::new() }
    }

    /// `SmallVec::push`: the item goes behind what the list held.
    #[verifier::external_body]
    pub(crate) fn append(&mut self, id: u32, text: String)
        ensures
            projected_items(*final(self)) == projected_items(*old(self)).push((id, text@)),
    {
        self.inner.push((id, text))
    }

    /// `SmallVec::len`: how many items the list holds.
    #[verifier::external_body]
    pub(crate) fn count(&self) -> (r: usize)
        ensures
            r == projected_items(*self).len(),
    {
        self.inner.len()
    }

    /// `SmallVec::index`: the item at a place; the place must lie in the list.
    #[verifier::external_body]
    pub(crate) fn item(&self, i: usize) -> (r: (u32, &str))
        requires
            i < projected_items(*self).len(),
        ensures
            (r.0, r.1@) == projected_items(*self)[i as int],
    {
        let e = &self.inner[i];
        (e.0, e.1.as_str())
    }

    /// A list without items.
    pub fn new() -> (r: ProjectedVec)
        ensures
            r@ == Seq::<(u32, Seq<char>)>::empty(),
    {
        ProjectedVec::empty()
    }

    /// Add an item at the end.
    pub fn push(&mut self, id: u32, text: String)
        ensures
            final(self)@ == old(self)@.push((id, text@)),
    {
        self.append(id, text);
    }

    /// The number of items.
    pub fn len(&self) -> (r: usize)
        ensures
            r == self@.len(),
    {
        self.count()
    }

    /// The item at a place.
    pub fn get(&self, i: usize) -> (r: (u32, &str))
        requires
            i < self@.len(),
        ensures
            (r.0, r.1@) == self@[i as int],
    {
        self.item(i)
    }
}

impl LabelVec {
    /// `SmallVec::new`: a list that holds nothing.
    #[verifier::external_body]
    pub(crate) fn empty() -> (r: LabelVec)
        ensures
            label_items(r) == Seq::<(Seq<char>, Seq<char>)>::empty(),
    {
        LabelVec { inner: SmallVec::new() }
    }

    /// `SmallVec::push`: the item goes behind what the list held.
    #[verifier::external_body]
    pub(crate) fn append(&mut self, key: String, value: String)
        ensures
            label_items(*final(self)) == label_items(*old(self)).push((key@, value@)),
    {
        self.inner.push((key, value))
    }

    /// `SmallVec::len`: how many items the list holds.
    #[verifier::external_body]
    pub(crate) fn count(&self) -> (r: usize)
        ensures
            r == label_items(*self).len(),
    {
        self.inner.len()
    }

    /// `SmallVec::index`: the item at a place; the place must lie in the list.
    #[verifier::external_body]
    pub(crate) fn item(&self, i: usize) -> (r: (&str, &str))
        requires
            i < label_items(*self).len(),
        ensures
            (r.0@, r.1@) == label_items(*self)[i as int],
    {
        let e = &self.inner[i];
        (e.0.as_str(), e.1.as_str())
    }

    /// A list without items.
    pub fn new() -> (r: LabelVec)
        ensures
            r@ == Seq::<(Seq<char>, Seq<char>)>::empty(),
    {
        LabelVec::empty()
    }

    /// Add an item at the end.
    pub fn push(&mut self, key: String, value: String)
        ensures
            final(self)@ == old(self)@.push((key@, value@)),
    {
        self.append(key, value);
    }

    /// The number of items.
    pub fn len(&self) -> (r: usize)
        ensures
            r == self@.len(),
    {
        self.count()
    }

    /// The item at a place.
    pub fn get(&self, i: usize) -> (r: (&str, &str))
        requires
            i < self@.len(),
        ensures
            (r.0@, r.1@) == self@[i as int],
    {
        self.item(i)
    }
}

impl AnnotationVec {
    /// `SmallVec::new`: a list that holds nothing.
    #[verifier::external_body]
    pub(crate) fn empty() -> (r: AnnotationVec)
        ensures
            annotation_items(r) == Seq::<(Seq<char>, Seq<char>)>::empty(),
    {
        AnnotationVec { inner: SmallVec::new() }
    }

    /// `SmallVec::push`: the item goes behind what the list held.
    #[verifier::external_body]
    pub(crate) fn append(&mut self, key: String, value: String)
        ensures
            annotation_items(*final(self)) == annotation_items(*old(self)).push((key@, value@)),
    {
        self.inner.push((key, value))
    }

    /// `SmallVec::len`: how many items the list holds.
    #[verifier::external_body]
    pub(crate) fn count(&self) -> (r: usize)
        ensures
            r == annotation_items(*self).len(),
    {
        self.inner.len()
    }

    /// `SmallVec::index`: the item at a place; the place must lie in the list.
    #[verifier::external_body]
    pub(crate) fn item(&self, i: usize) -> (r: (&str, &str))
        requires
            i < annotation_items(*self).len(),
        ensures
            (r.0@, r.1@) == annotation_items(*self)[i as int],
    {
        let e = &self.inner[i];
        (e.0.as_str(), e.1.as_str())
    }

    /// A list without items.
    pub fn new() -> (r: AnnotationVec)
        ensures
            r@ == Seq::<(Seq<char>, Seq<char>)>::empty(),
    {
        AnnotationVec::empty()
    }

    /// Add an item at the end.
    pub fn push(&mut self, key: String, value: String)
        ensures
            final(self)@ == old(self)@.push((key@, value@)),
    {
        self.append(key, value);
    }

    /// The number of items.
    pub fn len(&self) -> (r: usize)
        ensures
            r == self@.len(),
    {
        self.count()
    }

    /// The item at a place.
    pub fn get(&self, i: usize) -> (r: (&str, &str))
        requires
            i < self@.len(),
        ensures
            (r.0@, r.1@) == self@[i as int],
    {
        self.item(i)
    }
}

impl Clone for ProjectedVec {
    fn clone(&self) -> (r: Self)
        ensures
            r@ == self@,
    {
        let mut out = ProjectedVec::new();
        let n: usize = self.len();
        let mut i: usize = 0;
        while i < n
            invariant
                n == self@.len(),
                i <= n,
                out@ =~= self@.take(i as int),
            decreases n - i,
        {
            let (id, text) = self.get(i);
            out.push(id, text.to_owned());
            i += 1;
        }
        assert(self@.take(n as int) =~= self@);
        out
    }
}

impl Clone for LabelVec {
    fn clone(&self) -> (r: Self)
        ensures
            r@ == self@,
    {
        let mut out = LabelVec::new();
        let n: usize = self.len();
        let mut i: usize = 0;
        while i < n
            invariant
                n == self@.len(),
                i <= n,
                out@ =~= self@.take(i as int),
            decreases n - i,
        {
            let (key, value) = self.get(i);
            out.push(key.to_owned(), value.to_owned());
            i += 1;
        }
        assert(self@.take(n as int) =~= self@);
        out
    }
}

impl Clone for AnnotationVec {
    fn clone(&self) -> (r: Self)
        ensures
            r@ == self@,
    {
        let mut out = AnnotationVec::new();
        let n: usize = self.len();
        let mut i: usize = 0;
        while i < n
            invariant
                n == self@.len(),
                i <= n,
                out@ =~= self@.take(i as int),
            decreases n - i,
        {
            let (key, value) = self.get(i);
            out.push(key.to_owned(), value.to_owned());
            i += 1;
        }
        assert(self@.take(n as int) =~= self@);
        out
    }
}

} // verus!
