use vstd::prelude::*;

verus! {

/// The key under which a child node hangs inside a composite node.
#[derive(Debug)]
pub enum Identifier {
    Field(String),
    TupleIndex(usize),
    ArrayIndex(usize),
}

/// The mathematical value of an [`Identifier`].
pub enum IdentifierView {
    Field(Seq<char>),
    TupleIndex(usize),
    ArrayIndex(usize),
}

impl View for Identifier {
    type V = IdentifierView;

    open spec fn view(&self) -> IdentifierView {
        match self {
            Identifier::Field(s) => IdentifierView::Field(s@),
            Identifier::TupleIndex(i) => IdentifierView::TupleIndex(*i),
            Identifier::ArrayIndex(i) => IdentifierView::ArrayIndex(*i),
        }
    }
}

impl Clone for Identifier {
    fn clone(&self) -> (r: Self)
        ensures
            r == *self,
    {
        match self {
            Identifier::Field(s) => Identifier::Field(s.clone()),
            Identifier::TupleIndex(i) => Identifier::TupleIndex(*i),
            Identifier::ArrayIndex(i) => Identifier::ArrayIndex(*i),
        }
    }
}

impl PartialEq for Identifier {
    fn eq(&self, other: &Self) -> (r: bool) {
        match self {
            Identifier::Field(a) => match other {
                Identifier::Field(b) => {
                    let r = a.eq(b);
                    r
                },
                _ => false,
            },
            Identifier::TupleIndex(a) => match other {
                Identifier::TupleIndex(b) => *a == *b,
                _ => false,
            },
            Identifier::ArrayIndex(a) => match other {
                Identifier::ArrayIndex(b) => *a == *b,
                _ => false,
            },
        }
    }
}

impl vstd::std_specs::cmp::PartialEqSpecImpl for Identifier {
    open spec fn obeys_eq_spec() -> bool {
        true
    }

    open spec fn eq_spec(&self, other: &Self) -> bool {
        self@ == other@
    }
}

impl Eq for Identifier {
}

/// The path from a root node to one of its descendants, as the sequence of
/// identifiers passed on the way (the root's own identifier first when the
/// path is absolute).
#[derive(Debug)]
pub struct Path(pub Vec<Identifier>);

impl View for Path {
    type V = Seq<IdentifierView>;

    open spec fn view(&self) -> Seq<IdentifierView> {
        self.0@.map_values(|i: Identifier| i@)
    }
}


impl Clone for Path {
    fn clone(&self) -> (r: Self)
        ensures
            r@ == self@,
    {
        Path(clone_identifiers(&self.0))
    }
}

impl PartialEq for Path {
    fn eq(&self, other: &Self) -> (r: bool) {
        let n = self.0.len();
        if n != other.0.len() {
            assert(self@.len() != other@.len());
            return false;
        }
        let mut i: usize = 0;
        while i < n
            invariant
                n == self.0.len(),
                n == other.0.len(),
                i <= n,
                forall|j: int| 0 <= j < i ==> self.0@[j]@ == other.0@[j]@,
            decreases n - i,
        {
            if self.0[i] != other.0[i] {
                assert(self@[i as int] != other@[i as int]);
                return false;
            }
            i = i + 1;
        }
        assert(self@ =~= other@);
        true
    }
}

impl vstd::std_specs::cmp::PartialEqSpecImpl for Path {
    open spec fn obeys_eq_spec() -> bool {
        true
    }

    open spec fn eq_spec(&self, other: &Self) -> bool {
        self@ == other@
    }
}

impl Eq for Path {
}

/// An identifier as displayed: the field's name, or the index.
pub open spec fn identifier_display(id: IdentifierView) -> Seq<char> {
    match id {
        IdentifierView::Field(f) => f,
        IdentifierView::TupleIndex(i) => crate::text::decimal(i as nat),
        IdentifierView::ArrayIndex(i) => crate::text::decimal(i as nat),
    }
}

impl Identifier {
    /// The identifier as displayed: the field's name, or the index.
    pub fn to_text(&self) -> (r: String)
        ensures
            r@ == identifier_display(self@),
    {
        match self {
            Identifier::Field(f) => f.clone(),
            Identifier::TupleIndex(i) => crate::text::decimal_text(*i),
            Identifier::ArrayIndex(i) => crate::text::decimal_text(*i),
        }
    }
}

/// Copies a list of identifiers.
pub fn clone_identifiers(v: &Vec<Identifier>) -> (r: Vec<Identifier>)
    ensures
        r@ == v@,
{
    let mut r: Vec<Identifier> = Vec::new();
    let mut i: usize = 0;
    while i < v.len()
        invariant
            i <= v.len(),
            r@ == v@.subrange(0, i as int),
        decreases v.len() - i,
    {
        r.push(v[i].clone());
        i = i + 1;
    }
    assert(r@ =~= v@);
    r
}

impl Path {
    /// The number of identifiers on the path.
    pub fn len(&self) -> (r: usize)
        ensures
            r == self@.len(),
    {
        self.0.len()
    }

    /// The identifiers on the path, in order.
    pub fn iter(&self) -> (r: &[Identifier])
        ensures
            r@ == self.0@,
    {
        self.0.as_slice()
    }

    /// The path extended by one identifier at its end.
    pub fn append(self, id: Identifier) -> (r: Self)
        ensures
            r@ == self@.push(id@),
    {
        let mut v = self.0;
        v.push(id);
        let r = Path(v);
        assert(r@ =~= self@.push(id@));
        r
    }

    /// The path extended by one identifier at its front.
    pub fn prepend(self, id: Identifier) -> (r: Self)
        ensures
            r@ == seq![id@] + self@,
    {
        let mut v = self.0;
        v.insert(0, id);
        let r = Path(v);
        assert(r@ =~= seq![id@] + self@);
        r
    }

    /// The path without the identifier at `index`, or `None` where the path
    /// has no such position.
    pub fn remove(self, index: usize) -> (r: Option<Self>)
        ensures
            index < self@.len() <==> r is Some,
            r matches Some(p) ==> p@ == self@.remove(index as int),
    {
        if self.0.len() > index {
            let mut v = self.0;
            v.remove(index);
            let r = Path(v);
            assert(r@ =~= self@.remove(index as int));
            Some(r)
        } else {
            None
        }
    }

    /// The path without its last identifier; `None` for a path of one
    /// identifier.
    pub fn parent_path(&self) -> (r: Option<Path>)
        requires
            self@.len() >= 1,
        ensures
            self@.len() == 1 <==> r is None,
            r matches Some(p) ==> p@ == self@.drop_last(),
    {
        if self.0.len() == 1 {
            None
        } else {
            let n = self.0.len() - 1;
            let mut v: Vec<Identifier> = Vec::new();
            let mut i: usize = 0;
            while i < n
                invariant
                    n == self.0.len() - 1,
                    i <= n,
                    v@ == self.0@.subrange(0, i as int),
                decreases n - i,
            {
                v.push(self.0[i].clone());
                i = i + 1;
            }
            let r = Path(v);
            assert(r@ =~= self@.drop_last());
            Some(r)
        }
    }

    /// The first identifier of the path.
    pub fn root(&self) -> (r: Identifier)
        requires
            self@.len() >= 1,
        ensures
            r@ == self@[0],
    {
        self.0[0].clone()
    }

    /// Applies `mapper_fn` to each identifier of the path, in order.
    pub fn map<B, F: Fn(&Identifier) -> B>(&self, mapper_fn: F) -> (r: Vec<B>)
        requires
            forall|i: int| 0 <= i < self.0@.len() ==> call_requires(mapper_fn, (&self.0@[i],)),
        ensures
            r@.len() == self.0@.len(),
            forall|i: int| 0 <= i < self.0@.len() ==> call_ensures(mapper_fn, (&self.0@[i],), #[trigger] r@[i]),
    {
        let mut r: Vec<B> = Vec::new();
        let mut i: usize = 0;
        while i < self.0.len()
            invariant
                i <= self.0.len(),
                r@.len() == i,
                forall|j: int| 0 <= j < self.0@.len() ==> call_requires(mapper_fn, (&self.0@[j],)),
                forall|j: int| 0 <= j < i ==> call_ensures(mapper_fn, (&self.0@[j],), #[trigger] r@[j]),
            decreases self.0.len() - i,
        {
            let b = mapper_fn(&self.0[i]);
            r.push(b);
            i = i + 1;
        }
        r
    }
}

impl From<Vec<Identifier>> for Path {
    fn from(value: Vec<Identifier>) -> (r: Self) {
        Path(value)
    }
}

impl vstd::std_specs::convert::FromSpecImpl<Vec<Identifier>> for Path {
    open spec fn obeys_from_spec() -> bool {
        true
    }

    open spec fn from_spec(v: Vec<Identifier>) -> Self {
        Path(v)
    }
}

impl Path {
    /// The path made of the single identifier `value`.
    pub fn from_identifier(value: Identifier) -> (r: Self)
        ensures
            r@ == seq![value@],
    {
        let r = Path(vec![value]);
        assert(r@ =~= seq![value@]);
        r
    }
}

/// Appending an identifier and taking the parent path gives the path back.
pub proof fn law_append_then_parent(p: Seq<IdentifierView>, id: IdentifierView)
    ensures
        p.push(id).drop_last() == p,
{
    assert(p.push(id).drop_last() =~= p);
}

/// Prepending an identifier and removing the first one gives the path back.
pub proof fn law_prepend_then_remove_first(p: Seq<IdentifierView>, id: IdentifierView)
    ensures
        (seq![id] + p).remove(0) == p,
{
    assert((seq![id] + p).remove(0) =~= p);
}

/// The root of a prepended path is the prepended identifier.
pub proof fn law_prepend_root(p: Seq<IdentifierView>, id: IdentifierView)
    ensures
        (seq![id] + p)[0] == id,
{
}

/// `a` comes before `b` in lexicographic order of their characters.
pub open spec fn text_less(a: Seq<char>, b: Seq<char>) -> bool
    decreases a.len(),
{
    if a.len() == 0 {
        b.len() > 0
    } else if b.len() == 0 {
        false
    } else if (a[0] as u32) < (b[0] as u32) {
        true
    } else if a[0] == b[0] {
        text_less(a.drop_first(), b.drop_first())
    } else {
        false
    }
}

/// The order of identifiers: fields before tuple indices before array
/// indices, fields by their names, indices by their values.
pub open spec fn identifier_less(a: IdentifierView, b: IdentifierView) -> bool {
    match (a, b) {
        (IdentifierView::Field(x), IdentifierView::Field(y)) => text_less(x, y),
        (IdentifierView::Field(_), _) => true,
        (IdentifierView::TupleIndex(x), IdentifierView::TupleIndex(y)) => x < y,
        (IdentifierView::TupleIndex(_), IdentifierView::ArrayIndex(_)) => true,
        (IdentifierView::ArrayIndex(x), IdentifierView::ArrayIndex(y)) => x < y,
        _ => false,
    }
}

/// The order of texts is transitive.
pub proof fn lemma_text_less_transitive(a: Seq<char>, b: Seq<char>, c: Seq<char>)
    requires
        text_less(a, b),
        text_less(b, c),
    ensures
        text_less(a, c),
    decreases a.len(),
{
    if a.len() > 0 && b.len() > 0 && c.len() > 0 && a[0] == b[0] && b[0] == c[0] {
        lemma_text_less_transitive(a.drop_first(), b.drop_first(), c.drop_first());
    }
}

/// No text comes before itself.
pub proof fn lemma_text_less_irreflexive(a: Seq<char>)
    ensures
        !text_less(a, a),
    decreases a.len(),
{
    if a.len() > 0 {
        lemma_text_less_irreflexive(a.drop_first());
    }
}

/// No identifier comes before itself.
pub proof fn lemma_identifier_less_irreflexive(a: IdentifierView)
    ensures
        !identifier_less(a, a),
{
    if let IdentifierView::Field(x) = a {
        lemma_text_less_irreflexive(x);
    }
}

/// The order of identifiers is transitive.
pub proof fn lemma_identifier_less_transitive(a: IdentifierView, b: IdentifierView, c: IdentifierView)
    requires
        identifier_less(a, b),
        identifier_less(b, c),
    ensures
        identifier_less(a, c),
{
    match (a, b, c) {
        (IdentifierView::Field(x), IdentifierView::Field(y), IdentifierView::Field(z)) => lemma_text_less_transitive(x, y, z),
        _ => {},
    }
}

/// Whether the text `a` comes before the text `b`.
pub fn text_is_less(a: &str, b: &str) -> (r: bool)
    ensures
        r == text_less(a@, b@),
{
    let x = crate::text::chars_of(a);
    let y = crate::text::chars_of(b);
    let mut i: usize = 0;
    assert(x@.skip(0) =~= x@);
    assert(y@.skip(0) =~= y@);
    while i < x.len() && i < y.len()
        invariant
            x@ == a@,
            y@ == b@,
            i <= x@.len(),
            i <= y@.len(),
            text_less(a@, b@) == text_less(x@.skip(i as int), y@.skip(i as int)),
        decreases x@.len() - i,
    {
        let ghost xs = x@.skip(i as int);
        let ghost ys = y@.skip(i as int);
        assert(xs[0] == x@[i as int]);
        assert(ys[0] == y@[i as int]);
        if (x[i] as u32) < (y[i] as u32) {
            return true;
        }
        if x[i] != y[i] {
            return false;
        }
        assert(xs.drop_first() =~= x@.skip(i + 1));
        assert(ys.drop_first() =~= y@.skip(i + 1));
        i = i + 1;
    }
    i < y.len()
}

impl Identifier {
    /// Whether this identifier comes before `other`.
    pub fn is_less(&self, other: &Identifier) -> (r: bool)
        ensures
            r == identifier_less(self@, other@),
    {
        match (self, other) {
            (Identifier::Field(x), Identifier::Field(y)) => text_is_less(x.as_str(), y.as_str()),
            (Identifier::Field(_), _) => true,
            (Identifier::TupleIndex(x), Identifier::TupleIndex(y)) => *x < *y,
            (Identifier::TupleIndex(_), Identifier::ArrayIndex(_)) => true,
            (Identifier::ArrayIndex(x), Identifier::ArrayIndex(y)) => *x < *y,
            _ => false,
        }
    }
}

/// `order` lists each index below `n` once.
pub open spec fn is_permutation(order: Seq<int>, n: int) -> bool {
    &&& order.len() == n
    &&& forall|i: int| 0 <= i < order.len() ==> 0 <= #[trigger] order[i] < n
    &&& forall|i: int, j: int| 0 <= i < j < order.len() ==> #[trigger] order[i] != #[trigger] order[j]
}

/// Taking the keys in the order `order` never goes down.
pub open spec fn is_sorted_by(keys: Seq<IdentifierView>, order: Seq<int>) -> bool {
    forall|i: int, j: int| 0 <= i < j < order.len() ==> !identifier_less(#[trigger] keys[order[j]], #[trigger] keys[order[i]])
}

/// The order of `keys` by which they are sorted (equal keys keep their
/// order).
pub fn sorting_order(keys: &Vec<Identifier>) -> (r: Vec<usize>)
    ensures
        is_permutation(r@.map_values(|i: usize| i as int), keys@.len() as int),
        is_sorted_by(keys@.map_values(|k: Identifier| k@), r@.map_values(|i: usize| i as int)),
{
    let ghost kv = keys@.map_values(|k: Identifier| k@);
    let mut r: Vec<usize> = Vec::new();
    let mut n: usize = 0;
    while n < keys.len()
        invariant
            kv == keys@.map_values(|k: Identifier| k@),
            n <= keys@.len(),
            is_permutation(r@.map_values(|i: usize| i as int), n as int),
            is_sorted_by(kv, r@.map_values(|i: usize| i as int)),
        decreases keys@.len() - n,
    {
        let ghost before = r@.map_values(|i: usize| i as int);
        assert forall|a: int| 0 <= a < r@.len() implies #[trigger] r@[a] < n by {
            assert(before[a] == r@[a] as int);
        }
        let mut p: usize = 0;
        while p < r.len() && !keys[n].is_less(&keys[r[p]])
            invariant
                kv == keys@.map_values(|k: Identifier| k@),
                n < keys@.len(),
                p <= r@.len(),
                before == r@.map_values(|i: usize| i as int),
                is_permutation(before, n as int),
                forall|a: int| 0 <= a < r@.len() ==> #[trigger] r@[a] < n,
                forall|a: int| 0 <= a < p ==> !identifier_less(kv[n as int], #[trigger] kv[before[a]]),
            decreases r@.len() - p,
        {
            assert(kv[before[p as int]] == keys@[r@[p as int] as int]@);
            p = p + 1;
        }
        proof {
            if p < r@.len() {
                assert(kv[before[p as int]] == keys@[r@[p as int] as int]@);
                assert(identifier_less(kv[n as int], kv[before[p as int]]));
            }
        }
        r.insert(p, n);
        proof {
            let after = r@.map_values(|i: usize| i as int);
            assert(after =~= before.take(p as int) + seq![n as int] + before.skip(p as int));
            assert forall|i: int| 0 <= i < after.len() implies 0 <= #[trigger] after[i] < n + 1 by {
                if i < p {
                    assert(after[i] == before[i]);
                } else if i > p {
                    assert(after[i] == before[i - 1]);
                }
            }
            assert forall|i: int, j: int| 0 <= i < j < after.len() implies #[trigger] after[i] != #[trigger] after[j] by {
                if i < p && j < p {
                    assert(after[i] == before[i] && after[j] == before[j]);
                } else if i < p && j == p {
                    assert(after[i] == before[i]);
                } else if i < p {
                    assert(after[i] == before[i] && after[j] == before[j - 1]);
                } else if i == p {
                    assert(after[j] == before[j - 1]);
                } else {
                    assert(after[i] == before[i - 1] && after[j] == before[j - 1]);
                }
            }
            assert forall|i: int, j: int| 0 <= i < j < after.len() implies !identifier_less(#[trigger] kv[after[j]], #[trigger] kv[after[i]]) by {
                if i < p && j < p {
                    assert(after[i] == before[i] && after[j] == before[j]);
                } else if i < p && j == p {
                    assert(after[i] == before[i]);
                } else if i < p {
                    assert(after[i] == before[i] && after[j] == before[j - 1]);
                } else if i == p {
                    assert(after[j] == before[j - 1]);
                    assert(after[p as int] == n as int);
                    if identifier_less(kv[before[j - 1]], kv[n as int]) {
                        lemma_identifier_less_transitive(kv[before[j - 1]], kv[n as int], kv[before[p as int]]);
                        if j - 1 > p {
                            assert(!identifier_less(kv[before[j - 1]], kv[before[p as int]]));
                        } else {
                            lemma_identifier_less_irreflexive(kv[before[p as int]]);
                        }
                    }
                } else {
                    assert(after[i] == before[i - 1] && after[j] == before[j - 1]);
                }
            }
        }
        n = n + 1;
    }
    r
}

} // verus!
