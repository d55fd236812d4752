//! Hierarchical paths: ordered sequences of canonical names representing
//! nested scope, outer to inner. Construction never reorders or
//! deduplicates.

use vstd::prelude::*;

use crate::name::split_sep;
use crate::name::split_str;
use crate::name::tokenize;
use crate::name::Name;

verus! {

/// The view of a sequence of names: the sequence of their segment
/// sequences.
pub open spec fn names_view(ns: Seq<Name>) -> Seq<Seq<Seq<char>>> {
    ns.map_values(|n: Name| n@)
}

/// The path a spelling denotes: each separator-delimited piece, tokenized.
pub open spec fn path_of(s: Seq<char>, sep: char) -> Seq<Seq<Seq<char>>> {
    split_sep(s, sep).map_values(|p: Seq<char>| tokenize(p))
}

/// An ordered sequence of canonical names representing nested scope.
#[derive(Debug, Clone)]
pub struct Path(Vec<Name>);

impl View for Path {
    type V = Seq<Seq<Seq<char>>>;

    closed spec fn view(&self) -> Seq<Seq<Seq<char>>> {
        names_view(self.0@)
    }
}

impl PartialEq for Path {
    /// Paths are equal iff their name sequences are equal element for
    /// element.
    fn eq(&self, other: &Path) -> (r: bool) {
        let n = self.0.len();
        if n != other.0.len() {
            proof {
                assert(self@.len() != other@.len());
            }
            return false;
        }
        let mut i: usize = 0;
        while i < n
            invariant
                n == self.0.len(),
                n == other.0.len(),
                0 <= i <= n,
                forall|j: int| 0 <= j < i ==> self.0@[j]@ == other.0@[j]@,
            decreases n - i,
        {
            if !(self.0[i] == other.0[i]) {
                proof {
                    assert(self@[i as int] != other@[i as int]);
                }
                return false;
            }
            i = i + 1;
        }
        proof {
            assert(self@ =~= other@);
        }
        true
    }
}

impl Eq for Path {}

impl vstd::std_specs::cmp::PartialEqSpecImpl for Path {
    open spec fn obeys_eq_spec() -> bool {
        true
    }

    open spec fn eq_spec(&self, other: &Path) -> bool {
        self@ == other@
    }
}

impl Path {
    /// Convert a string slice into a `Path`: split on the separator and
    /// canonicalize each piece.
    pub fn parse(input: &str, separator: char) -> (r: Path)
        ensures
            r@ == path_of(input@, separator),
    {
        let pieces = split_str(input, separator);
        let ghost target = path_of(input@, separator);
        let n = pieces.len();
        let mut names: Vec<Name> = Vec::new();
        let mut i: usize = 0;
        proof {
            assert(n == target.len());
        }
        while i < n
            invariant
                n == pieces@.len(),
                n == target.len(),
                forall|j: int|
                    0 <= j < n ==> target[j] == tokenize(#[trigger] pieces@[j]@),
                0 <= i <= n,
                names@.len() == i,
                forall|j: int| 0 <= j < i ==> names@[j]@ == target[j],
            decreases n - i,
        {
            names.push(Name::from_str(pieces[i].as_str()));
            i = i + 1;
        }
        proof {
            assert(names_view(names@) =~= target);
        }
        Path(names)
    }

    /// Convert a string slice into a `Path`: split on `.` and canonicalize
    /// each piece.
    pub fn from_str(input: &str) -> (r: Path)
        ensures
            r@ == path_of(input@, '.'),
    {
        Path::parse(input, '.')
    }

    /// Compose a path directly from already-canonical names, in the given
    /// order, without re-parsing, reordering or deduplicating.
    pub fn from_names(names: Vec<Name>) -> (r: Path)
        ensures
            r@ == names_view(names@),
    {
        Path(names)
    }

    /// The names of the path, outer to inner.
    pub fn names(&self) -> (r: &Vec<Name>)
        ensures
            names_view(r@) == self@,
    {
        &self.0
    }
}

/// Lexicographic order on paths: the first differing name decides, by
/// `cmp_segs`; a proper prefix comes first.
pub open spec fn cmp_names(a: Seq<Seq<Seq<char>>>, b: Seq<Seq<Seq<char>>>) -> core::cmp::Ordering
    decreases a.len(),
{
    if a.len() == 0 && b.len() == 0 {
        core::cmp::Ordering::Equal
    } else if a.len() == 0 {
        core::cmp::Ordering::Less
    } else if b.len() == 0 {
        core::cmp::Ordering::Greater
    } else {
        match crate::name::cmp_segs(a[0], b[0]) {
            core::cmp::Ordering::Equal => cmp_names(a.drop_first(), b.drop_first()),
            c => c,
        }
    }
}

/// Comparing paths the other way around flips the verdict (antisymmetry).
pub proof fn lemma_cmp_names_flip(a: Seq<Seq<Seq<char>>>, b: Seq<Seq<Seq<char>>>)
    ensures
        cmp_names(b, a) == crate::name::flip(cmp_names(a, b)),
    decreases a.len(),
{
    if a.len() > 0 && b.len() > 0 {
        crate::name::lemma_cmp_segs_flip(a[0], b[0]);
        lemma_cmp_names_flip(a.drop_first(), b.drop_first());
    }
}

/// The order on paths is transitive.
pub proof fn lemma_cmp_names_trans(
    a: Seq<Seq<Seq<char>>>,
    b: Seq<Seq<Seq<char>>>,
    c: Seq<Seq<Seq<char>>>,
)
    requires
        cmp_names(a, b) == core::cmp::Ordering::Less,
        cmp_names(b, c) == core::cmp::Ordering::Less,
    ensures
        cmp_names(a, c) == core::cmp::Ordering::Less,
    decreases a.len(),
{
    if a.len() == 0 {
    } else {
        assert(b.len() > 0);
        assert(c.len() > 0);
        let ab = crate::name::cmp_segs(a[0], b[0]);
        let bc = crate::name::cmp_segs(b[0], c[0]);
        crate::name::lemma_cmp_segs_eq(a[0], b[0]);
        crate::name::lemma_cmp_segs_eq(b[0], c[0]);
        if ab == core::cmp::Ordering::Equal && bc == core::cmp::Ordering::Equal {
            lemma_cmp_names_trans(a.drop_first(), b.drop_first(), c.drop_first());
            assert(crate::name::cmp_segs(a[0], c[0]) == core::cmp::Ordering::Equal);
        } else if ab == core::cmp::Ordering::Equal {
            assert(a[0] == b[0]);
        } else if bc == core::cmp::Ordering::Equal {
            assert(b[0] == c[0]);
        } else {
            crate::name::lemma_cmp_segs_trans(a[0], b[0], c[0]);
        }
    }
}

/// Paths compare equal exactly when they are equal.
pub proof fn lemma_cmp_names_eq(a: Seq<Seq<Seq<char>>>, b: Seq<Seq<Seq<char>>>)
    ensures
        cmp_names(a, b) == core::cmp::Ordering::Equal <==> a == b,
    decreases a.len(),
{
    if a.len() == 0 && b.len() == 0 {
        assert(a =~= b);
    } else if a.len() > 0 && b.len() > 0 {
        crate::name::lemma_cmp_segs_eq(a[0], b[0]);
        lemma_cmp_names_eq(a.drop_first(), b.drop_first());
        if a.drop_first() == b.drop_first() && a[0] == b[0] {
            assert forall|i: int| 0 <= i < a.len() implies a[i] == b[i] by {
                if i > 0 {
                    assert(a[i] == a.drop_first()[i - 1]);
                    assert(b[i] == b.drop_first()[i - 1]);
                }
            }
            assert(a =~= b);
        }
        if a == b {
            assert(a[0] == b[0]);
            assert(a.drop_first() =~= b.drop_first());
        }
    }
}

impl Path {
    /// Compare two paths lexicographically: the first differing name
    /// decides; a proper prefix comes first. This is the total order under
    /// which paths serve as map keys.
    pub fn compare(&self, other: &Path) -> (r: core::cmp::Ordering)
        ensures
            r == cmp_names(self@, other@),
    {
        let n = self.0.len();
        let m = other.0.len();
        let mut i: usize = 0;
        proof {
            assert(self@.skip(0) =~= self@);
            assert(other@.skip(0) =~= other@);
        }
        while i < n && i < m
            invariant
                n == self.0.len(),
                m == other.0.len(),
                self@.len() == n,
                other@.len() == m,
                0 <= i <= n,
                0 <= i <= m,
                cmp_names(self@, other@) == cmp_names(self@.skip(i as int), other@.skip(i as int)),
            decreases n - i,
        {
            proof {
                assert(self@.skip(i as int)[0] == self@[i as int]);
                assert(other@.skip(i as int)[0] == other@[i as int]);
                assert(self@[i as int] == self.0@[i as int]@);
                assert(other@[i as int] == other.0@[i as int]@);
            }
            let c = self.0[i].compare(&other.0[i]);
            match c {
                core::cmp::Ordering::Equal => {
                    proof {
                        assert(self@.skip(i as int).drop_first() =~= self@.skip(i + 1));
                        assert(other@.skip(i as int).drop_first() =~= other@.skip(i + 1));
                    }
                    i = i + 1;
                },
                _ => {
                    return c;
                },
            }
        }
        proof {
            if i == n {
                assert(self@.skip(i as int) =~= Seq::<Seq<Seq<char>>>::empty());
            }
            if i == m {
                assert(other@.skip(i as int) =~= Seq::<Seq<Seq<char>>>::empty());
            }
            if i < m {
                assert(other@.skip(i as int).len() > 0);
            }
            if i < n {
                assert(self@.skip(i as int).len() > 0);
            }
        }
        if n < m {
            core::cmp::Ordering::Less
        } else if n > m {
            core::cmp::Ordering::Greater
        } else {
            core::cmp::Ordering::Equal
        }
    }
}

/// Composing two distinct names in the two possible orders yields distinct
/// paths: paths are ordered, so `[a, b]` differs from `[b, a]` whenever the
/// names differ.
pub proof fn lemma_path_order_sensitive(a: Name, b: Name)
    requires
        a@ != b@,
    ensures
        names_view(seq![a, b]) != names_view(seq![b, a]),
{
    assert(names_view(seq![a, b])[0] == a@);
    assert(names_view(seq![b, a])[0] == b@);
}

/// A package hierarchy: a path distinguished by its kind, with the same
/// representation and equality.
#[derive(Debug, Clone)]
pub struct PackageName(Path);

impl View for PackageName {
    type V = Seq<Seq<Seq<char>>>;

    closed spec fn view(&self) -> Seq<Seq<Seq<char>>> {
        self.0@
    }
}

impl PackageName {
    /// Wrap a path as a package hierarchy.
    pub fn new(path: Path) -> (r: PackageName)
        ensures
            r@ == path@,
    {
        PackageName(path)
    }

    /// The underlying path.
    pub fn path(&self) -> (r: &Path)
        ensures
            r@ == self@,
    {
        &self.0
    }
}

} // verus!
