//! The interning context: a thread-safe symbol table that deduplicates
//! segment text and hands out compact, comparable symbols in its place.
//!
//! Symbols are only meaningful relative to the context that produced them:
//! every resolving operation requires, as part of its contract, that the
//! symbol was handed out by the resolving context, so a foreign symbol is
//! rejected at verification time rather than resolved to the wrong text.

use std::sync::Arc;
use vstd::prelude::*;

use crate::name::split_sep;
use crate::name::split_str;

verus! {

#[verifier::external_type_specification]
#[verifier::external_body]
#[verifier::reject_recursive_types(K)]
#[verifier::reject_recursive_types(S)]
pub struct ExThreadedRodeo<K, S>(lasso::ThreadedRodeo<K, S>);

#[verifier::external_type_specification]
#[verifier::external_body]
pub struct ExSpur(lasso::Spur);

/// The key an interner assigns to a text: `get_or_intern` hands out the same
/// key every time the same interner sees the same text.
pub uninterp spec fn interned_key(r: lasso::ThreadedRodeo, text: Seq<char>) -> u32;

/// The text an interner stores under a key it has handed out.
pub uninterp spec fn interned_text(r: lasso::ThreadedRodeo, key: u32) -> Seq<char>;

/// A key that the interner has handed out: it round-trips through the
/// interner's own table. Keys made up by a caller, or handed out by another
/// interner, cannot be shown valid.
pub open spec fn valid_symbol(r: lasso::ThreadedRodeo, key: u32) -> bool {
    interned_key(r, interned_text(r, key)) == key
}

/// Relies on `lasso::ThreadedRodeo::new`: a fresh interner, sharing no
/// symbols with any other.
#[verifier::external_body]
fn rodeo_new() -> (r: Arc<lasso::ThreadedRodeo>) {
    Arc::new(lasso::ThreadedRodeo::new())
}

/// Relies on `Arc::clone`: the clone shares the same value.
#[verifier::external_body]
fn rodeo_share(rodeo: &Arc<lasso::ThreadedRodeo>) -> (r: Arc<lasso::ThreadedRodeo>)
    ensures
        r == *rodeo,
{
    Arc::clone(rodeo)
}

/// Relies on `lasso::ThreadedRodeo::get_or_intern` and
/// `lasso::Key::into_usize`: interning hands out one key per distinct text —
/// the same text always receives the same key from the same interner, and
/// the interner resolves that key back to exactly that text. (Like the
/// standard collections, the interner aborts if its key space or memory
/// runs out.)
#[verifier::external_body]
fn rodeo_get_or_intern(rodeo: &lasso::ThreadedRodeo, text: &str) -> (k: u32)
    ensures
        k == interned_key(*rodeo, text@),
        interned_text(*rodeo, k) == text@,
{
    lasso::Key::into_usize(rodeo.get_or_intern(text)) as u32
}

/// Relies on `lasso::ThreadedRodeo::get`: a lookup that never inserts; when
/// it finds the text it returns the key that `get_or_intern` hands out.
#[verifier::external_body]
fn rodeo_get(rodeo: &lasso::ThreadedRodeo, text: &str) -> (r: Option<u32>)
    ensures
        r matches Some(k) ==> k == interned_key(*rodeo, text@) && interned_text(*rodeo, k)
            == text@,
{
    match rodeo.get(text) {
        Some(spur) => Some(lasso::Key::into_usize(spur) as u32),
        None => None,
    }
}

/// Relies on `lasso::ThreadedRodeo::resolve` and
/// `lasso::Key::try_from_usize`: resolving a key this interner handed out
/// returns the text interned under it.
#[verifier::external_body]
fn rodeo_resolve<'a>(rodeo: &'a lasso::ThreadedRodeo, key: u32) -> (r: &'a str)
    requires
        valid_symbol(*rodeo, key),
    ensures
        r@ == interned_text(*rodeo, key),
{
    let spur: lasso::Spur = lasso::Key::try_from_usize(key as usize).unwrap();
    rodeo.resolve(&spur)
}

/// A compact symbol standing for one interned text.
#[derive(Debug, Clone, Copy, PartialEq, Eq, Structural, Hash)]
pub struct Text(pub u32);

/// An interning context: a shared symbol table. Independent contexts may be
/// created for isolated scopes; symbols never transfer between contexts.
#[derive(Debug, Clone)]
pub struct NamingContext {
    rodeo: Arc<lasso::ThreadedRodeo>,
}

impl NamingContext {
    /// The symbol table this context resolves against.
    pub closed spec fn interner(&self) -> lasso::ThreadedRodeo {
        *self.rodeo
    }

    /// Create a fresh, independent context.
    pub fn new() -> NamingContext {
        NamingContext { rodeo: rodeo_new() }
    }

    /// Look a text up without interning it. When the text is present, the
    /// symbol is the one `text` and `get_run` hand out.
    pub fn get_text(&self, text: &str) -> (r: Option<Text>)
        ensures
            r matches Some(t) ==> t.0 == interned_key(self.interner(), text@) && interned_text(
                self.interner(),
                t.0,
            ) == text@ && valid_symbol(self.interner(), t.0),
    {
        match rodeo_get(&self.rodeo, text) {
            Some(k) => Some(Text(k)),
            None => None,
        }
    }

    /// Intern a text: the same text always receives the same symbol from
    /// this context, and the symbol resolves back to exactly this text.
    pub fn text(&self, text: &str) -> (t: Text)
        ensures
            t.0 == interned_key(self.interner(), text@),
            interned_text(self.interner(), t.0) == text@,
            valid_symbol(self.interner(), t.0),
    {
        Text(rodeo_get_or_intern(&self.rodeo, text))
    }

    /// Resolve a symbol this context handed out back to its text. A symbol
    /// of a foreign context is refused by the contract: no caller can show
    /// it valid here.
    pub fn resolve(&self, text: Text) -> (r: &str)
        requires
            valid_symbol(self.interner(), text.0),
        ensures
            r@ == interned_text(self.interner(), text.0),
    {
        rodeo_resolve(&self.rodeo, text.0)
    }

    /// Intern a text and wrap the symbol together with this context, so it
    /// can resolve itself later.
    pub fn get_run(&self, text: &str) -> (r: Run)
        ensures
            r.interner() == self.interner(),
            r.sym().0 == interned_key(self.interner(), text@),
            r@ == text@,
            r.wf(),
    {
        let sym = self.text(text);
        Run { text: sym, rodeo: rodeo_share(&self.rodeo) }
    }

    /// Resolve a run against this context; the run must have been produced
    /// by this context.
    pub fn run_to_str(&self, run: Run) -> (r: &str)
        requires
            run.wf(),
            run.interner() == self.interner(),
        ensures
            r@ == run@,
    {
        self.resolve(run.text)
    }
}

/// A symbol paired with the context that produced it, able to resolve
/// itself back to its text.
#[derive(Debug, Clone)]
pub struct Run {
    text: Text,
    rodeo: Arc<lasso::ThreadedRodeo>,
}

impl View for Run {
    type V = Seq<char>;

    /// The text the run stands for.
    closed spec fn view(&self) -> Seq<char> {
        interned_text(self.interner(), self.text.0)
    }
}

impl Run {
    /// The symbol table that produced this run.
    pub closed spec fn interner(&self) -> lasso::ThreadedRodeo {
        *self.rodeo
    }

    /// The bare symbol.
    pub closed spec fn sym(&self) -> Text {
        self.text
    }

    /// A well-formed run holds a symbol its own context handed out.
    pub open spec fn wf(&self) -> bool {
        valid_symbol(self.interner(), self.sym().0)
    }

    /// The symbol, without the context.
    pub fn text(&self) -> (t: Text)
        ensures
            t == self.sym(),
    {
        self.text
    }

    /// Resolve the run to its text through its own context.
    pub fn to_str(&self) -> (r: &str)
        requires
            self.wf(),
        ensures
            r@ == self@,
    {
        rodeo_resolve(&self.rodeo, self.text.0)
    }
}

/// Interning is deterministic: within one context, equal texts always
/// receive the same symbol and distinct texts never share one. The premises
/// hold of any symbols the context handed out.
pub proof fn lemma_interning_deterministic(
    r: lasso::ThreadedRodeo,
    t1: Seq<char>,
    t2: Seq<char>,
)
    requires
        interned_text(r, interned_key(r, t1)) == t1,
        interned_text(r, interned_key(r, t2)) == t2,
    ensures
        interned_key(r, t1) == interned_key(r, t2) <==> t1 == t2,
{
}

/// A name whose segments are interned runs, made by splitting a dotted
/// spelling.
#[derive(Debug, Clone)]
pub struct Name(Vec<Run>);

impl View for Name {
    type V = Seq<Seq<char>>;

    /// The texts of the runs, in order.
    closed spec fn view(&self) -> Seq<Seq<char>> {
        self.0@.map_values(|r: Run| r@)
    }
}

impl Name {
    /// Every run was produced by the given context and is well formed.
    pub open spec fn wf_in(&self, ctx: &NamingContext) -> bool {
        forall|i: int|
            0 <= i < self.runs_len() ==> (#[trigger] self.run_at(i)).wf() && self.run_at(
                i,
            ).interner() == ctx.interner()
    }

    /// How many runs the name holds.
    pub closed spec fn runs_len(&self) -> int {
        self.0@.len() as int
    }

    /// The run at a position.
    pub closed spec fn run_at(&self, i: int) -> Run {
        self.0@[i]
    }

    /// Split a dotted spelling and intern each piece in the given context.
    pub fn from_str(s: &str, naming_context: &NamingContext) -> (r: Name)
        ensures
            r@ == split_sep(s@, '.'),
            r.wf_in(naming_context),
    {
        let pieces = split_str(s, '.');
        let ghost target = split_sep(s@, '.');
        let n = pieces.len();
        let mut runs: Vec<Run> = Vec::new();
        let mut i: usize = 0;
        proof {
            assert(n == target.len());
        }
        while i < n
            invariant
                n == pieces@.len(),
                n == target.len(),
                forall|j: int| 0 <= j < n ==> target[j] == #[trigger] pieces@[j]@,
                0 <= i <= n,
                runs@.len() == i,
                forall|j: int|
                    0 <= j < i ==> (#[trigger] runs@[j])@ == target[j] && runs@[j].wf()
                        && runs@[j].interner() == naming_context.interner(),
            decreases n - i,
        {
            runs.push(naming_context.get_run(pieces[i].as_str()));
            i = i + 1;
        }
        let r = Name(runs);
        proof {
            assert(r@ =~= target);
        }
        r
    }

    /// Resolve every run back to its text, in order.
    pub fn to_vec(&self) -> (r: Vec<String>)
        requires
            forall|i: int| 0 <= i < self.runs_len() ==> (#[trigger] self.run_at(i)).wf(),
        ensures
            r@.map_values(|t: String| t@) == self@,
    {
        let n = self.0.len();
        let mut out: Vec<String> = Vec::new();
        let mut i: usize = 0;
        while i < n
            invariant
                n == self.0.len(),
                self.runs_len() == n,
                forall|j: int| 0 <= j < n ==> (#[trigger] self.run_at(j)).wf(),
                forall|j: int| 0 <= j < n ==> self.run_at(j) == self.0@[j],
                0 <= i <= n,
                out@.len() == i,
                forall|j: int| 0 <= j < i ==> out@[j]@ == self.0@[j]@,
            decreases n - i,
        {
            proof {
                assert(self.run_at(i as int) == self.0@[i as int]);
            }
            out.push(String::from_str(self.0[i].to_str()));
            i = i + 1;
        }
        proof {
            assert(out@.map_values(|t: String| t@) =~= self@);
        }
        out
    }
}

/// A canonical name kept as one plain string.
#[derive(Debug, Clone)]
pub struct CanonicalNameStr(String);

impl View for CanonicalNameStr {
    type V = Seq<char>;

    closed spec fn view(&self) -> Seq<char> {
        self.0@
    }
}

impl CanonicalNameStr {
    /// Wrap a string, unchanged.
    pub fn new(text: String) -> (r: CanonicalNameStr)
        ensures
            r@ == text@,
    {
        CanonicalNameStr(text)
    }
}

/// A path over interned names.
#[derive(Debug, Clone)]
pub struct Path(Vec<Name>);

impl View for Path {
    type V = Seq<Seq<Seq<char>>>;

    closed spec fn view(&self) -> Seq<Seq<Seq<char>>> {
        self.0@.map_values(|n: Name| n@)
    }
}

impl Path {
    /// Compose a path from interned names, in order.
    pub fn from_names(names: Vec<Name>) -> (r: Path)
        ensures
            r@ == names@.map_values(|n: Name| n@),
    {
        Path(names)
    }
}

} // verus!
