//! Canonical identifiers.
//!
//! A [`Name`] is an ordered sequence of word segments. It is produced by
//! tokenizing an arbitrary spelling ([`Name::from_str`]) and can be rendered
//! back into any supported surface convention (camel case, title case, or
//! human-readable words). The tokenization rule: a segment is either a
//! maximal run of one letter followed by lowercase letters, or a maximal run
//! of digits; every other character only separates segments; segments are
//! stored lowercased.

use vstd::prelude::*;

verus! {

// ---------------------------------------------------------------------------
// Character classes and case mapping (ASCII)
// ---------------------------------------------------------------------------
/// An ASCII uppercase letter.
pub open spec fn is_upper(c: char) -> bool {
    'A' <= c && c <= 'Z'
}

/// An ASCII lowercase letter.
pub open spec fn is_lower(c: char) -> bool {
    'a' <= c && c <= 'z'
}

/// An ASCII decimal digit.
pub open spec fn is_digit_char(c: char) -> bool {
    '0' <= c && c <= '9'
}

/// An ASCII letter of either case.
pub open spec fn is_letter(c: char) -> bool {
    is_upper(c) || is_lower(c)
}

/// The lowercase counterpart of a character: ASCII uppercase letters are
/// shifted into the lowercase range, every other character is unchanged.
pub open spec fn to_lower(c: char) -> char {
    if is_upper(c) {
        (c as u32 + 32) as char
    } else {
        c
    }
}

/// The uppercase counterpart of a character: ASCII lowercase letters are
/// shifted into the uppercase range, every other character is unchanged.
pub open spec fn to_upper(c: char) -> char {
    if is_lower(c) {
        (c as u32 - 32) as char
    } else {
        c
    }
}

/// Decide `is_upper`.
pub fn char_is_upper(c: char) -> (r: bool)
    ensures
        r == is_upper(c),
{
    'A' <= c && c <= 'Z'
}

/// Decide `is_lower`.
pub fn char_is_lower(c: char) -> (r: bool)
    ensures
        r == is_lower(c),
{
    'a' <= c && c <= 'z'
}

/// Decide `is_digit_char`.
pub fn char_is_digit(c: char) -> (r: bool)
    ensures
        r == is_digit_char(c),
{
    '0' <= c && c <= '9'
}

/// Decide `is_letter`.
pub fn char_is_letter(c: char) -> (r: bool)
    ensures
        r == is_letter(c),
{
    char_is_upper(c) || char_is_lower(c)
}

/// Lowercase one character, as `to_lower` describes.
pub fn lower_char(c: char) -> (r: char)
    ensures
        r == to_lower(c),
{
    if 'A' <= c && c <= 'Z' {
        let u: u32 = c as u32 + 32;
        let b: u8 = u as u8;
        proof {
            assert(u < 256 ==> (u as u8) as u32 == u) by (bit_vector);
        }
        b as char
    } else {
        c
    }
}

/// Uppercase one character, as `to_upper` describes.
pub fn upper_char(c: char) -> (r: char)
    ensures
        r == to_upper(c),
{
    if 'a' <= c && c <= 'z' {
        let u: u32 = c as u32 - 32;
        let b: u8 = u as u8;
        proof {
            assert(u < 256 ==> (u as u8) as u32 == u) by (bit_vector);
        }
        b as char
    } else {
        c
    }
}

// ---------------------------------------------------------------------------
// The tokenization model
// ---------------------------------------------------------------------------
/// Length of the maximal prefix of lowercase letters.
pub open spec fn lower_run(s: Seq<char>) -> nat
    decreases s.len(),
{
    if s.len() > 0 && is_lower(s[0]) {
        1 + lower_run(s.drop_first())
    } else {
        0
    }
}

/// Length of the maximal prefix of digits.
pub open spec fn digit_run(s: Seq<char>) -> nat
    decreases s.len(),
{
    if s.len() > 0 && is_digit_char(s[0]) {
        1 + digit_run(s.drop_first())
    } else {
        0
    }
}

pub proof fn lemma_lower_run_le(s: Seq<char>)
    ensures
        lower_run(s) <= s.len(),
    decreases s.len(),
{
    if s.len() > 0 && is_lower(s[0]) {
        lemma_lower_run_le(s.drop_first());
    }
}

pub proof fn lemma_digit_run_le(s: Seq<char>)
    ensures
        digit_run(s) <= s.len(),
    decreases s.len(),
{
    if s.len() > 0 && is_digit_char(s[0]) {
        lemma_digit_run_le(s.drop_first());
    }
}

/// A run length is pinned down by its characters: `k` characters satisfying
/// the class, followed by the end or a character outside the class.
pub proof fn lemma_lower_run_is(s: Seq<char>, k: int)
    requires
        0 <= k <= s.len(),
        forall|i: int| 0 <= i < k ==> is_lower(s[i]),
        k < s.len() ==> !is_lower(s[k]),
    ensures
        lower_run(s) == k,
    decreases k,
{
    if k == 0 {
    } else {
        assert(is_lower(s[0]));
        lemma_lower_run_is(s.drop_first(), k - 1);
    }
}

pub proof fn lemma_digit_run_is(s: Seq<char>, k: int)
    requires
        0 <= k <= s.len(),
        forall|i: int| 0 <= i < k ==> is_digit_char(s[i]),
        k < s.len() ==> !is_digit_char(s[k]),
    ensures
        digit_run(s) == k,
    decreases k,
{
    if k == 0 {
    } else {
        assert(is_digit_char(s[0]));
        lemma_digit_run_is(s.drop_first(), k - 1);
    }
}

/// A sequence of characters, each lowercased.
pub open spec fn lowered(s: Seq<char>) -> Seq<char> {
    s.map_values(|c: char| to_lower(c))
}

/// The canonical tokenization of a spelling: scan left to right; a letter
/// starts a segment that extends over the following lowercase letters; a
/// digit starts a segment that extends over the following digits; any other
/// character separates segments. Letter segments are stored lowercased.
pub open spec fn tokenize(s: Seq<char>) -> Seq<Seq<char>>
    decreases s.len(),
    via tokenize_decreases
{
    if s.len() == 0 {
        Seq::empty()
    } else if is_letter(s[0]) {
        let k = 1 + lower_run(s.drop_first()) as int;
        seq![lowered(s.take(k))] + tokenize(s.skip(k))
    } else if is_digit_char(s[0]) {
        let k = digit_run(s) as int;
        seq![s.take(k)] + tokenize(s.skip(k))
    } else {
        tokenize(s.drop_first())
    }
}

#[via_fn]
proof fn tokenize_decreases(s: Seq<char>) {
    if s.len() > 0 {
        lemma_lower_run_le(s.drop_first());
        lemma_digit_run_le(s);
    }
}

// ---------------------------------------------------------------------------
// String building
// ---------------------------------------------------------------------------
/// Relies on `String::push`: it appends exactly the given character.
#[verifier::external_body]
pub(crate) fn push_char(s: &mut String, c: char)
    ensures
        final(s)@ == old(s)@.push(c),
{
    s.push(c);
}

// ---------------------------------------------------------------------------
// Unicode case predicates and case mapping
// ---------------------------------------------------------------------------
/// Whether a character is uppercase in the Unicode sense, as
/// `char::is_uppercase` decides it.
pub uninterp spec fn unicode_upper(c: char) -> bool;

/// Relies on `char::is_uppercase`: true exactly for characters with the
/// Unicode uppercase property; among ASCII characters those are `A` to `Z`.
#[verifier::external_body]
fn char_is_unicode_upper(c: char) -> (r: bool)
    ensures
        r == unicode_upper(c),
        (c as u32) < 128 ==> r == is_upper(c),
{
    c.is_uppercase()
}

/// The Unicode lowercase mapping of a text, as `str::to_lowercase` computes
/// it; it depends on the characters alone.
pub uninterp spec fn unicode_lower_of(s: Seq<char>) -> Seq<char>;

/// The Unicode uppercase mapping of a text, as `str::to_uppercase` computes
/// it; it depends on the characters alone.
pub uninterp spec fn unicode_upper_of(s: Seq<char>) -> Seq<char>;

/// Relies on `str::to_lowercase`: the result depends on the characters
/// alone, and on ASCII text it maps `A` to `Z` into the lowercase range and
/// leaves every other character unchanged.
#[verifier::external_body]
fn str_to_lowercase(s: &str) -> (r: String)
    ensures
        r@ == unicode_lower_of(s@),
        vstd::utf8::is_ascii_chars(s@) ==> r@ == lowered(s@),
{
    s.to_lowercase()
}

/// Relies on `str::to_uppercase`: the result depends on the characters
/// alone, and on ASCII text it maps `a` to `z` into the uppercase range and
/// leaves every other character unchanged.
#[verifier::external_body]
fn str_to_uppercase(s: &str) -> (r: String)
    ensures
        r@ == unicode_upper_of(s@),
        vstd::utf8::is_ascii_chars(s@) ==> r@ == upped(s@),
{
    s.to_uppercase()
}

// ---------------------------------------------------------------------------
// The rendering model
// ---------------------------------------------------------------------------
/// A sequence of characters, each uppercased.
pub open spec fn upped(s: Seq<char>) -> Seq<char> {
    s.map_values(|c: char| to_upper(c))
}

/// A segment in title case: its first character uppercased, the rest
/// unchanged.
pub open spec fn title_seg(seg: Seq<char>) -> Seq<char> {
    if seg.len() == 0 {
        seg
    } else {
        seq![to_upper(seg[0])] + seg.drop_first()
    }
}

/// All the segments of a name, concatenated.
pub open spec fn concat_all(segs: Seq<Seq<char>>) -> Seq<char>
    decreases segs.len(),
{
    if segs.len() == 0 {
        Seq::empty()
    } else {
        segs[0] + concat_all(segs.drop_first())
    }
}

/// Every segment in title case.
pub open spec fn title_all(segs: Seq<Seq<char>>) -> Seq<Seq<char>> {
    segs.map_values(|s: Seq<char>| title_seg(s))
}

/// The title-case rendering of a name: every segment title-cased,
/// concatenated with no separator.
pub open spec fn title_case(segs: Seq<Seq<char>>) -> Seq<char> {
    concat_all(title_all(segs))
}

/// The camel-case rendering of a name: the first segment unchanged, the
/// remaining segments title-cased, concatenated with no separator.
pub open spec fn camel_case(segs: Seq<Seq<char>>) -> Seq<char> {
    if segs.len() == 0 {
        Seq::empty()
    } else {
        segs[0] + title_case(segs.drop_first())
    }
}

/// Concatenating one more segment at the end.
pub proof fn lemma_concat_all_push(segs: Seq<Seq<char>>, x: Seq<char>)
    ensures
        concat_all(segs.push(x)) == concat_all(segs) + x,
    decreases segs.len(),
{
    if segs.len() == 0 {
        assert(segs.push(x).drop_first() =~= Seq::<Seq<char>>::empty());
        assert(concat_all(segs.push(x)) == x + concat_all(Seq::<Seq<char>>::empty()));
        assert(x + Seq::<char>::empty() =~= x);
        assert(concat_all(segs) + x =~= x);
    } else {
        assert(segs.push(x).drop_first() =~= segs.drop_first().push(x));
        lemma_concat_all_push(segs.drop_first(), x);
        assert(concat_all(segs.push(x)) =~= concat_all(segs) + x);
    }
}

/// Title-casing one more segment at the end.
pub proof fn lemma_title_case_push(segs: Seq<Seq<char>>, x: Seq<char>)
    ensures
        title_case(segs.push(x)) == title_case(segs) + title_seg(x),
{
    assert(title_all(segs.push(x)) =~= title_all(segs).push(title_seg(x)));
    lemma_concat_all_push(title_all(segs), title_seg(x));
}

// ---------------------------------------------------------------------------
// NameComponent
// ---------------------------------------------------------------------------
/// A component of a name: one word segment. A name is a sequence of
/// components.
#[derive(Debug, Clone)]
pub struct NameComponent(String);

impl View for NameComponent {
    type V = Seq<char>;

    closed spec fn view(&self) -> Seq<char> {
        self.0@
    }
}

impl NameComponent {
    /// Wrap a string as a component, unchanged.
    pub fn of_string(text: String) -> (r: NameComponent)
        ensures
            r@ == text@,
    {
        NameComponent(text)
    }

    /// Wrap a string slice as a component, unchanged.
    pub fn of_str(text: &str) -> (r: NameComponent)
        ensures
            r@ == text@,
    {
        NameComponent(String::from_str(text))
    }

    /// Extract a string slice containing our data.
    pub fn as_str(&self) -> (r: &str)
        ensures
            r@ == self@,
    {
        self.0.as_str()
    }

    /// Convert the component into an owned string.
    pub fn to_string(&self) -> (r: String)
        ensures
            r@ == self@,
    {
        self.0.clone()
    }

    /// Our length in bytes of the UTF-8 encoding.
    pub fn len(&self) -> (r: usize)
        ensures
            r == vstd::utf8::encode_utf8(self@).len() as usize,
    {
        self.0.as_str().len()
    }

    /// Indicates if the component is empty.
    pub fn is_empty(&self) -> (r: bool)
        ensures
            r == (self@.len() == 0),
    {
        self.0.as_str().is_empty()
    }
}

impl NameComponent {
    /// The component lowercased in the Unicode sense; on ASCII text that is
    /// the plain `A`-to-`Z` shift.
    pub fn to_lowercase(&self) -> (r: NameComponent)
        ensures
            r@ == unicode_lower_of(self@),
            vstd::utf8::is_ascii_chars(self@) ==> r@ == lowered(self@),
    {
        NameComponent(str_to_lowercase(self.0.as_str()))
    }

    /// The component uppercased in the Unicode sense; on ASCII text that is
    /// the plain `a`-to-`z` shift.
    pub fn to_uppercase(&self) -> (r: NameComponent)
        ensures
            r@ == unicode_upper_of(self@),
            vstd::utf8::is_ascii_chars(self@) ==> r@ == upped(self@),
    {
        NameComponent(str_to_uppercase(self.0.as_str()))
    }

    /// The component's text with its first character uppercased and the rest
    /// unchanged.
    pub fn to_title_case(&self) -> (r: String)
        ensures
            r@ == title_seg(self@),
    {
        let n = self.0.as_str().unicode_len();
        let mut out = String::new();
        if n == 0 {
            return out;
        }
        push_char(&mut out, upper_char(self.0.as_str().get_char(0)));
        let mut i: usize = 1;
        proof {
            assert(out@ =~= seq![to_upper(self@[0])] + self@.subrange(1, 1));
        }
        while i < n
            invariant
                n == self@.len(),
                1 <= i <= n,
                out@ == seq![to_upper(self@[0])] + self@.subrange(1, i as int),
            decreases n - i,
        {
            push_char(&mut out, self.0.as_str().get_char(i));
            proof {
                assert(self@.subrange(1, i + 1) =~= self@.subrange(1, i as int).push(
                    self@[i as int],
                ));
                assert(out@ =~= seq![to_upper(self@[0])] + self@.subrange(1, i + 1));
            }
            i = i + 1;
        }
        proof {
            assert(self@.subrange(1, n as int) =~= self@.drop_first());
        }
        out
    }

    /// Indicates if the component starts with an uppercase letter, in the
    /// Unicode sense. The component must not be empty.
    pub fn is_title_cased(&self) -> (r: bool)
        requires
            self@.len() > 0,
        ensures
            r == unicode_upper(self@[0]),
    {
        char_is_unicode_upper(self.0.as_str().get_char(0))
    }

    /// Indicates if the component is non-empty and entirely uppercase
    /// letters, in the Unicode sense.
    pub fn is_uppercase(&self) -> (r: bool)
        ensures
            r == (self@.len() > 0 && forall|i: int|
                0 <= i < self@.len() ==> unicode_upper(self@[i])),
    {
        let n = self.0.as_str().unicode_len();
        if n == 0 {
            return false;
        }
        let mut i: usize = 0;
        while i < n
            invariant
                n == self@.len(),
                0 <= i <= n,
                forall|j: int| 0 <= j < i ==> unicode_upper(self@[j]),
            decreases n - i,
        {
            if !char_is_unicode_upper(self.0.as_str().get_char(i)) {
                proof {
                    assert(!unicode_upper(self@[i as int]));
                }
                return false;
            }
            i = i + 1;
        }
        true
    }

    /// Append a string to the component.
    pub fn append(&self, other: &str) -> (r: NameComponent)
        ensures
            r@ == self@ + other@,
    {
        let mut s = self.0.clone();
        s.append(other);
        NameComponent(s)
    }

    /// Prepend a string to the component.
    pub fn prepend(&self, other: &str) -> (r: NameComponent)
        ensures
            r@ == other@ + self@,
    {
        let mut s = String::from_str(other);
        s.append(self.0.as_str());
        NameComponent(s)
    }

    /// Concatenate two components.
    pub fn concat(&self, other: &NameComponent) -> (r: NameComponent)
        ensures
            r@ == self@ + other@,
    {
        self.append(other.as_str())
    }

    /// Join a slice of components with a separator between each two.
    pub fn join(components: &[&NameComponent], separator: &str) -> (r: NameComponent)
        ensures
            r@ == joined(components@.map_values(|c: &NameComponent| c@), separator@),
    {
        let ghost parts = components@.map_values(|c: &NameComponent| c@);
        let n = components.len();
        let mut out = String::new();
        if n == 0 {
            return NameComponent(out);
        }
        out.append(components[0].as_str());
        let mut i: usize = 1;
        proof {
            assert(joined(parts.take(1), separator@) =~= parts[0]);
            assert(out@ =~= joined(parts.take(1), separator@));
        }
        while i < n
            invariant
                n == parts.len(),
                n == components@.len(),
                parts == components@.map_values(|c: &NameComponent| c@),
                1 <= i <= n,
                out@ == joined(parts.take(i as int), separator@),
            decreases n - i,
        {
            out.append(separator);
            out.append(components[i].as_str());
            proof {
                assert(parts.take(i + 1) =~= parts.take(i as int).push(parts[i as int]));
                lemma_joined_push(parts.take(i as int), parts[i as int], separator@);
            }
            i = i + 1;
        }
        proof {
            assert(parts.take(n as int) =~= parts);
        }
        NameComponent(out)
    }
}

/// Components joined by a separator: the components' texts in order, with
/// the separator between each two.
pub open spec fn joined(parts: Seq<Seq<char>>, sep: Seq<char>) -> Seq<char>
    decreases parts.len(),
{
    if parts.len() == 0 {
        Seq::empty()
    } else if parts.len() == 1 {
        parts[0]
    } else {
        parts[0] + sep + joined(parts.drop_first(), sep)
    }
}

/// Joining one more part at the end.
pub proof fn lemma_joined_push(parts: Seq<Seq<char>>, x: Seq<char>, sep: Seq<char>)
    requires
        parts.len() >= 1,
    ensures
        joined(parts.push(x), sep) == joined(parts, sep) + sep + x,
    decreases parts.len(),
{
    if parts.len() == 1 {
        assert(parts.push(x).drop_first() =~= seq![x]);
        assert(joined(seq![x], sep) == x);
        assert(joined(parts.push(x), sep) == parts[0] + sep + x);
    } else {
        assert(parts.push(x).drop_first() =~= parts.drop_first().push(x));
        lemma_joined_push(parts.drop_first(), x, sep);
        assert(joined(parts.push(x), sep) =~= joined(parts, sep) + sep + x);
    }
}

impl From<&str> for NameComponent {
    /// Wraps the text unchanged, exactly as `NameComponent::of_str` does;
    /// the contract stands on `NameComponent::of_str`.
    fn from(input: &str) -> (r: NameComponent) {
        NameComponent::of_str(input)
    }
}

impl vstd::std_specs::convert::FromSpecImpl<&str> for NameComponent {
    open spec fn obeys_from_spec() -> bool {
        false
    }

    open spec fn from_spec(input: &str) -> NameComponent {
        arbitrary()
    }
}

impl From<String> for NameComponent {
    /// Wraps the text unchanged, exactly as `NameComponent::of_string`
    /// does; the contract stands on `NameComponent::of_string`.
    fn from(input: String) -> (r: NameComponent) {
        NameComponent::of_string(input)
    }
}

impl vstd::std_specs::convert::FromSpecImpl<String> for NameComponent {
    open spec fn obeys_from_spec() -> bool {
        false
    }

    open spec fn from_spec(input: String) -> NameComponent {
        arbitrary()
    }
}

impl PartialEq for NameComponent {
    /// Components are equal iff their text is equal.
    fn eq(&self, other: &NameComponent) -> (r: bool) {
        self.0 == other.0
    }
}

impl Eq for NameComponent {}

impl vstd::std_specs::cmp::PartialEqSpecImpl for NameComponent {
    open spec fn obeys_eq_spec() -> bool {
        true
    }

    open spec fn eq_spec(&self, other: &NameComponent) -> bool {
        self@ == other@
    }
}

// ---------------------------------------------------------------------------
// Name
// ---------------------------------------------------------------------------
/// The view of a sequence of components: the sequence of their texts.
pub open spec fn comps_view(cs: Seq<NameComponent>) -> Seq<Seq<char>> {
    cs.map_values(|c: NameComponent| c@)
}

/// A canonical identifier: an ordered sequence of word segments.
#[derive(Debug, Clone)]
pub struct Name(Vec<NameComponent>);

impl View for Name {
    type V = Seq<Seq<char>>;

    closed spec fn view(&self) -> Seq<Seq<char>> {
        comps_view(self.0@)
    }
}

impl PartialEq for Name {
    /// Names are equal iff their segment sequences are equal element for
    /// element.
    fn eq(&self, other: &Name) -> (r: bool) {
        let n = self.0.len();
        if n != other.0.len() {
            proof {
                assert(self@.len() != other@.len());
            }
            return false;
        }
        let mut i: usize = 0;
        while i < n
            invariant
                n == self.0.len(),
                n == other.0.len(),
                0 <= i <= n,
                forall|j: int| 0 <= j < i ==> self.0@[j]@ == other.0@[j]@,
            decreases n - i,
        {
            if !(self.0[i] == other.0[i]) {
                proof {
                    assert(self@[i as int] != other@[i as int]);
                }
                return false;
            }
            i = i + 1;
        }
        proof {
            assert(self@ =~= other@);
        }
        true
    }
}

impl Eq for Name {}

impl vstd::std_specs::cmp::PartialEqSpecImpl for Name {
    open spec fn obeys_eq_spec() -> bool {
        true
    }

    open spec fn eq_spec(&self, other: &Name) -> bool {
        self@ == other@
    }
}

impl Name {
    /// The components of the name, in order.
    pub fn components(&self) -> (r: &[NameComponent])
        ensures
            comps_view(r@) == self@,
    {
        self.0.as_slice()
    }

    /// Converts a slice of string slices into a `Name`, keeping every
    /// segment exactly as written. This is the direct construction for
    /// already-canonical input; it never re-tokenizes.
    pub fn from_slices(parts: &[&str]) -> (r: Name)
        ensures
            r@.len() == parts@.len(),
            forall|i: int| 0 <= i < parts@.len() ==> r@[i] == parts@[i]@,
    {
        let mut comps: Vec<NameComponent> = Vec::new();
        let n = parts.len();
        let mut i: usize = 0;
        while i < n
            invariant
                n == parts@.len(),
                0 <= i <= n,
                comps@.len() == i,
                forall|j: int| 0 <= j < i ==> comps@[j]@ == parts@[j]@,
            decreases n - i,
        {
            comps.push(NameComponent::of_str(parts[i]));
            i = i + 1;
        }
        proof {
            assert(forall|j: int|
                0 <= j < n ==> comps_view(comps@)[j] == parts@[j]@);
        }
        Name(comps)
    }

    /// Translate a string into a `Name` by splitting it into words: the
    /// result is exactly `tokenize` of the input.
    pub fn from_str(input: &str) -> (r: Name)
        ensures
            r@ == tokenize(input@),
    {
        let ghost s = input@;
        let n = input.unicode_len();
        let mut comps: Vec<NameComponent> = Vec::new();
        let mut i: usize = 0;
        proof {
            assert(s.skip(0) =~= s);
            assert(comps_view(comps@) + tokenize(s) =~= tokenize(s));
        }
        while i < n
            invariant
                n == s.len(),
                s == input@,
                0 <= i <= n,
                comps_view(comps@) + tokenize(s.skip(i as int)) == tokenize(s),
            decreases n - i,
        {
            let ghost t = s.skip(i as int);
            proof {
                assert(t[0] == s[i as int]);
            }
            let c = input.get_char(i);
            if char_is_letter(c) {
                let start = i;
                let mut seg = String::new();
                push_char(&mut seg, lower_char(c));
                i = i + 1;
                proof {
                    assert(seg@ =~= lowered(s.subrange(start as int, i as int)));
                }
                while i < n && char_is_lower(input.get_char(i))
                    invariant
                        n == s.len(),
                        s == input@,
                        start < i <= n,
                        forall|m: int| start < m < i ==> is_lower(s[m]),
                        seg@ == lowered(s.subrange(start as int, i as int)),
                    decreases n - i,
                {
                    push_char(&mut seg, lower_char(input.get_char(i)));
                    proof {
                        assert(s.subrange(start as int, i + 1)
                            =~= s.subrange(start as int, i as int).push(s[i as int]));
                        assert(seg@ =~= lowered(s.subrange(start as int, i + 1)));
                    }
                    i = i + 1;
                }
                proof {
                    let k = i - start;
                    assert(t.drop_first() =~= s.skip(start + 1));
                    assert forall|m: int| 0 <= m < k - 1 implies is_lower(
                        t.drop_first()[m],
                    ) by {
                        assert(t.drop_first()[m] == s[start + 1 + m]);
                    }
                    if k - 1 < t.drop_first().len() {
                        assert(t.drop_first()[k - 1] == s[i as int]);
                    }
                    lemma_lower_run_is(t.drop_first(), k - 1);
                    assert(t.take(k) =~= s.subrange(start as int, i as int));
                    assert(t.skip(k) =~= s.skip(i as int));
                    assert(tokenize(t) == seq![seg@] + tokenize(s.skip(i as int)));
                }
                let ghost old_comps = comps@;
                comps.push(NameComponent(seg));
                proof {
                    assert(comps_view(comps@) =~= comps_view(old_comps).push(
                        comps@[comps@.len() - 1]@,
                    ));
                    assert(comps_view(comps@) + tokenize(s.skip(i as int))
                        =~= comps_view(old_comps) + tokenize(s.skip(start as int)));
                }
            } else if char_is_digit(c) {
                let start = i;
                let mut seg = String::new();
                push_char(&mut seg, c);
                i = i + 1;
                proof {
                    assert(seg@ =~= s.subrange(start as int, i as int));
                }
                while i < n && char_is_digit(input.get_char(i))
                    invariant
                        n == s.len(),
                        s == input@,
                        start < i <= n,
                        forall|m: int| start <= m < i ==> is_digit_char(s[m]),
                        seg@ == s.subrange(start as int, i as int),
                    decreases n - i,
                {
                    push_char(&mut seg, input.get_char(i));
                    proof {
                        assert(seg@ =~= s.subrange(start as int, i + 1));
                    }
                    i = i + 1;
                }
                proof {
                    let k = i - start;
                    assert forall|m: int| 0 <= m < k implies is_digit_char(t[m]) by {
                        assert(t[m] == s[start + m]);
                    }
                    if k < t.len() {
                        assert(t[k] == s[i as int]);
                    }
                    lemma_digit_run_is(t, k);
                    assert(t.take(k) =~= s.subrange(start as int, i as int));
                    assert(t.skip(k) =~= s.skip(i as int));
                    assert(tokenize(t) == seq![seg@] + tokenize(s.skip(i as int)));
                }
                let ghost old_comps = comps@;
                comps.push(NameComponent(seg));
                proof {
                    assert(comps_view(comps@) =~= comps_view(old_comps).push(
                        comps@[comps@.len() - 1]@,
                    ));
                    assert(comps_view(comps@) + tokenize(s.skip(i as int))
                        =~= comps_view(old_comps) + tokenize(s.skip(start as int)));
                }
            } else {
                proof {
                    assert(t.drop_first() =~= s.skip(i + 1));
                    assert(tokenize(s.skip(i as int)) == tokenize(s.skip(i + 1)));
                }
                i = i + 1;
            }
        }
        proof {
            assert(s.skip(n as int) =~= Seq::<char>::empty());
            assert(comps_view(comps@) + tokenize(s.skip(n as int)) =~= comps_view(comps@));
        }
        Name(comps)
    }
}

// ---------------------------------------------------------------------------
// Human-readable words
// ---------------------------------------------------------------------------
/// The view of a sequence of owned strings: the sequence of their texts.
pub open spec fn strs_view(v: Seq<String>) -> Seq<Seq<char>> {
    v.map_values(|t: String| t@)
}

/// A segment consisting of exactly one letter, as an abbreviation part does.
pub open spec fn is_single_letter(seg: Seq<char>) -> bool {
    seg.len() == 1 && is_letter(seg[0])
}

/// Length of the maximal prefix of single-letter segments.
pub open spec fn single_run(segs: Seq<Seq<char>>) -> nat
    decreases segs.len(),
{
    if segs.len() > 0 && is_single_letter(segs[0]) {
        1 + single_run(segs.drop_first())
    } else {
        0
    }
}

pub proof fn lemma_single_run_le(segs: Seq<Seq<char>>)
    ensures
        single_run(segs) <= segs.len(),
    decreases segs.len(),
{
    if segs.len() > 0 && is_single_letter(segs[0]) {
        lemma_single_run_le(segs.drop_first());
    }
}

pub proof fn lemma_single_run_is(segs: Seq<Seq<char>>, k: int)
    requires
        0 <= k <= segs.len(),
        forall|i: int| 0 <= i < k ==> is_single_letter(segs[i]),
        k < segs.len() ==> !is_single_letter(segs[k]),
    ensures
        single_run(segs) == k,
    decreases k,
{
    if k == 0 {
    } else {
        assert(is_single_letter(segs[0]));
        lemma_single_run_is(segs.drop_first(), k - 1);
    }
}

/// The human-readable word list of a name: a run of two or more consecutive
/// single-letter segments is merged into one uppercase abbreviation token;
/// every other segment is kept as it is.
pub open spec fn human_words(segs: Seq<Seq<char>>) -> Seq<Seq<char>>
    decreases segs.len(),
    via human_words_decreases
{
    if segs.len() == 0 {
        Seq::empty()
    } else {
        let k = single_run(segs) as int;
        if k >= 2 {
            seq![upped(concat_all(segs.take(k)))] + human_words(segs.skip(k))
        } else {
            seq![segs[0]] + human_words(segs.drop_first())
        }
    }
}

#[via_fn]
proof fn human_words_decreases(segs: Seq<Seq<char>>) {
    if segs.len() > 0 {
        lemma_single_run_le(segs);
    }
}

impl Name {
    /// Convert the `Name` into a title case string: every segment
    /// title-cased, concatenated with no separator.
    pub fn to_title_case(&self) -> (r: String)
        ensures
            r@ == title_case(self@),
    {
        let n = self.0.len();
        let mut out = String::new();
        let mut i: usize = 0;
        proof {
            assert(title_all(self@.take(0)) =~= Seq::<Seq<char>>::empty());
            assert(out@ =~= title_case(self@.take(0)));
        }
        while i < n
            invariant
                n == self.0.len(),
                self@.len() == n,
                0 <= i <= n,
                out@ == title_case(self@.take(i as int)),
            decreases n - i,
        {
            let t = self.0[i].to_title_case();
            out.append(t.as_str());
            proof {
                assert(self@[i as int] == self.0@[i as int]@);
                assert(self@.take(i + 1) =~= self@.take(i as int).push(self@[i as int]));
                lemma_title_case_push(self@.take(i as int), self@[i as int]);
            }
            i = i + 1;
        }
        proof {
            assert(self@.take(n as int) =~= self@);
        }
        out
    }

    /// Convert the `Name` into a camel case string: the first segment
    /// unchanged, the remaining segments title-cased, concatenated with no
    /// separator.
    pub fn to_camel_case(&self) -> (r: String)
        ensures
            r@ == camel_case(self@),
    {
        let n = self.0.len();
        let mut out = String::new();
        if n == 0 {
            return out;
        }
        out.append(self.0[0].as_str());
        let mut i: usize = 1;
        proof {
            assert(self@[0] == self.0@[0]@);
            assert(title_all(self@.subrange(1, 1)) =~= Seq::<Seq<char>>::empty());
            assert(out@ =~= self@[0] + title_case(self@.subrange(1, 1)));
        }
        while i < n
            invariant
                n == self.0.len(),
                self@.len() == n,
                1 <= i <= n,
                out@ == self@[0] + title_case(self@.subrange(1, i as int)),
            decreases n - i,
        {
            let t = self.0[i].to_title_case();
            out.append(t.as_str());
            proof {
                assert(self@[i as int] == self.0@[i as int]@);
                assert(self@.subrange(1, i + 1) =~= self@.subrange(1, i as int).push(
                    self@[i as int],
                ));
                lemma_title_case_push(self@.subrange(1, i as int), self@[i as int]);
            }
            i = i + 1;
        }
        proof {
            assert(self@.subrange(1, n as int) =~= self@.drop_first());
        }
        out
    }

    /// The segments as owned strings, in order.
    pub fn segments(&self) -> (r: Vec<String>)
        ensures
            strs_view(r@) == self@,
    {
        self.to_vec()
    }

    /// The segments as owned strings, in order.
    pub fn to_vec(&self) -> (r: Vec<String>)
        ensures
            strs_view(r@) == self@,
    {
        let n = self.0.len();
        let mut out: Vec<String> = Vec::new();
        let mut i: usize = 0;
        while i < n
            invariant
                n == self.0.len(),
                self@.len() == n,
                0 <= i <= n,
                out@.len() == i,
                forall|j: int| 0 <= j < i ==> out@[j]@ == self@[j],
            decreases n - i,
        {
            out.push(self.0[i].to_string());
            proof {
                assert(self@[i as int] == self.0@[i as int]@);
            }
            i = i + 1;
        }
        proof {
            assert(strs_view(out@) =~= self@);
        }
        out
    }

    /// The segments as a boxed slice of owned strings, in order.
    pub fn into_boxed_slice_of_string(self) -> (r: Box<[String]>)
        ensures
            strs_view(r@) == self@,
    {
        vec_into_boxed_slice(self.to_vec())
    }

    /// Turns the name into a list of human-readable words, as `human_words`
    /// describes: runs of two or more single-letter segments become one
    /// uppercase abbreviation token, all other segments stay as they are.
    pub fn to_human_words(&self) -> (r: Vec<String>)
        ensures
            strs_view(r@) == human_words(self@),
    {
        let ghost s = self@;
        let n = self.0.len();
        let mut out: Vec<String> = Vec::new();
        let mut i: usize = 0;
        proof {
            assert(s.skip(0) =~= s);
            assert(strs_view(out@) + human_words(s) =~= human_words(s));
        }
        while i < n
            invariant
                n == self.0.len(),
                s == self@,
                s.len() == n,
                0 <= i <= n,
                strs_view(out@) + human_words(s.skip(i as int)) == human_words(s),
            decreases n - i,
        {
            let ghost t = s.skip(i as int);
            // Count the run of single-letter segments starting here.
            let mut j: usize = i;
            while j < n && self.0[j].as_str().unicode_len() == 1 && char_is_letter(
                self.0[j].as_str().get_char(0),
            )
                invariant
                    n == self.0.len(),
                    s == self@,
                    s.len() == n,
                    i <= j <= n,
                    forall|m: int| i <= m < j ==> is_single_letter(s[m]),
                decreases n - j,
            {
                proof {
                    assert(s[j as int] == self.0@[j as int]@);
                }
                j = j + 1;
            }
            proof {
                let k = j - i;
                assert forall|m: int| 0 <= m < k implies is_single_letter(t[m]) by {
                    assert(t[m] == s[i + m]);
                }
                if k < t.len() {
                    assert(t[k] == s[j as int]);
                    assert(s[j as int] == self.0@[j as int]@);
                }
                lemma_single_run_is(t, k);
            }
            if j - i >= 2 {
                // An abbreviation: join the run into one uppercase token.
                let ghost run = t.take(j - i);
                let mut abbrev = String::new();
                let mut m: usize = i;
                proof {
                    assert(run.take(0) =~= Seq::<Seq<char>>::empty());
                    assert(abbrev@ =~= upped(concat_all(run.take(0))));
                    assert forall|q: int|
                        0 <= q < run.len() implies is_single_letter(#[trigger] run[q]) by {
                        assert(run[q] == t[q]);
                    }
                }
                while m < j
                    invariant
                        n == self.0.len(),
                        s == self@,
                        s.len() == n,
                        i <= m <= j <= n,
                        run == s.skip(i as int).take(j - i),
                        run.len() == j - i,
                        forall|q: int| 0 <= q < run.len() ==> run[q] == s[i + q],
                        forall|q: int| 0 <= q < run.len() ==> is_single_letter(#[trigger] run[q]),
                        abbrev@ == upped(concat_all(run.take(m - i))),
                    decreases j - m,
                {
                    proof {
                        // The segment is a single ASCII letter, so Unicode
                        // uppercasing is the plain shift.
                        assert(s[m as int] == self.0@[m as int]@);
                        assert(run[m - i] == s[m as int]);
                        assert(is_single_letter(s[m as int]));
                        let seg = self.0@[m as int]@;
                        assert forall|q: int| 0 <= q < seg.len() implies '\0' <= #[trigger] seg[q]
                            <= '\u{7f}' by {
                            assert(q == 0);
                            assert(is_letter(seg[0]));
                        }
                        assert(vstd::utf8::is_ascii_chars(seg));
                    }
                    let u = self.0[m].to_uppercase();
                    abbrev.append(u.as_str());
                    proof {
                        assert(run[m - i] == s[m as int]);
                        assert(run.take(m - i + 1) =~= run.take(m - i).push(run[m - i]));
                        lemma_concat_all_push(run.take(m - i), run[m - i]);
                        lemma_upped_concat(concat_all(run.take(m - i)), run[m - i]);
                    }
                    m = m + 1;
                }
                let ghost old_out = out@;
                out.push(abbrev);
                proof {
                    assert(run.take(j - i) =~= run);
                    assert(human_words(t) == seq![upped(concat_all(run))] + human_words(
                        t.skip(j - i),
                    ));
                    assert(t.skip(j - i) =~= s.skip(j as int));
                    assert(strs_view(out@) =~= strs_view(old_out).push(upped(concat_all(run))));
                    assert(strs_view(out@) + human_words(s.skip(j as int)) =~= strs_view(old_out)
                        + human_words(s.skip(i as int)));
                }
                i = j;
            } else {
                let ghost old_out = out@;
                out.push(self.0[i].to_string());
                proof {
                    assert(s[i as int] == self.0@[i as int]@);
                    assert(human_words(t) == seq![t[0]] + human_words(t.drop_first()));
                    assert(t.drop_first() =~= s.skip(i + 1));
                    assert(strs_view(out@) =~= strs_view(old_out).push(s[i as int]));
                    assert(strs_view(out@) + human_words(s.skip(i + 1)) =~= strs_view(old_out)
                        + human_words(s.skip(i as int)));
                }
                i = i + 1;
            }
        }
        proof {
            assert(s.skip(n as int) =~= Seq::<Seq<char>>::empty());
            assert(strs_view(out@) + human_words(s.skip(n as int)) =~= strs_view(out@));
        }
        out
    }
}

/// Why a spelling could not become a name.
#[derive(Debug, Clone)]
pub enum NamingError {
    /// The input tokenizes to zero segments where a non-empty name is
    /// required.
    UnresolvableIdentifier(String),
}

impl NamingError {
    /// A human-readable description of the error.
    pub fn message(&self) -> (r: String)
        ensures
            self matches NamingError::UnresolvableIdentifier(p) ==> r@
                == "no identifier can be made of "@ + p@,
    {
        match self {
            NamingError::UnresolvableIdentifier(p) => {
                let mut s = String::from_str("no identifier can be made of ");
                s.append(p.as_str());
                s
            },
        }
    }
}

impl Name {
    /// Translate a string into a `Name` where a non-empty name is required:
    /// an input that tokenizes to zero segments is signaled to the caller,
    /// never silently substituted. Succeeds exactly when the input holds at
    /// least one letter or digit.
    pub fn from_str_non_empty(input: &str) -> (r: Result<Name, NamingError>)
        ensures
            tokenize(input@).len() > 0 <==> r is Ok,
            r matches Ok(n) ==> n@ == tokenize(input@),
            r matches Err(e) ==> tokenize(input@).len() == 0 && (e matches
                NamingError::UnresolvableIdentifier(p) && p@ == input@),
    {
        let name = Name::from_str(input);
        if name.0.len() == 0 {
            proof {
                assert(tokenize(input@).len() == 0);
            }
            Err(NamingError::UnresolvableIdentifier(String::from_str(input)))
        } else {
            proof {
                assert(tokenize(input@).len() > 0);
            }
            Ok(name)
        }
    }
}

impl From<&str> for Name {
    /// Parses the input, exactly as `Name::from_str` does; the contract
    /// stands on `Name::from_str`.
    fn from(input: &str) -> (r: Name) {
        Name::from_str(input)
    }
}

impl vstd::std_specs::convert::FromSpecImpl<&str> for Name {
    open spec fn obeys_from_spec() -> bool {
        false
    }

    open spec fn from_spec(input: &str) -> Name {
        arbitrary()
    }
}

impl From<String> for Name {
    /// Parses the input, exactly as `Name::from_str` does; the contract
    /// stands on `Name::from_str`.
    fn from(input: String) -> (r: Name) {
        Name::from_str(input.as_str())
    }
}

impl vstd::std_specs::convert::FromSpecImpl<String> for Name {
    open spec fn obeys_from_spec() -> bool {
        false
    }

    open spec fn from_spec(input: String) -> Name {
        arbitrary()
    }
}

// ---------------------------------------------------------------------------
// Lexicographic ordering
// ---------------------------------------------------------------------------
/// Lexicographic order on texts, by code point: the first differing
/// character decides; a proper prefix comes first.
pub open spec fn cmp_chars(a: Seq<char>, b: Seq<char>) -> core::cmp::Ordering
    decreases a.len(),
{
    if a.len() == 0 && b.len() == 0 {
        core::cmp::Ordering::Equal
    } else if a.len() == 0 {
        core::cmp::Ordering::Less
    } else if b.len() == 0 {
        core::cmp::Ordering::Greater
    } else if (a[0] as u32) < (b[0] as u32) {
        core::cmp::Ordering::Less
    } else if (a[0] as u32) > (b[0] as u32) {
        core::cmp::Ordering::Greater
    } else {
        cmp_chars(a.drop_first(), b.drop_first())
    }
}

/// Lexicographic order on segment sequences: the first differing segment
/// decides, by `cmp_chars`; a proper prefix comes first.
pub open spec fn cmp_segs(a: Seq<Seq<char>>, b: Seq<Seq<char>>) -> core::cmp::Ordering
    decreases a.len(),
{
    if a.len() == 0 && b.len() == 0 {
        core::cmp::Ordering::Equal
    } else if a.len() == 0 {
        core::cmp::Ordering::Less
    } else if b.len() == 0 {
        core::cmp::Ordering::Greater
    } else {
        match cmp_chars(a[0], b[0]) {
            core::cmp::Ordering::Equal => cmp_segs(a.drop_first(), b.drop_first()),
            c => c,
        }
    }
}

/// The opposite of an ordering verdict.
pub open spec fn flip(o: core::cmp::Ordering) -> core::cmp::Ordering {
    match o {
        core::cmp::Ordering::Less => core::cmp::Ordering::Greater,
        core::cmp::Ordering::Equal => core::cmp::Ordering::Equal,
        core::cmp::Ordering::Greater => core::cmp::Ordering::Less,
    }
}

/// Comparing texts the other way around flips the verdict (antisymmetry).
pub proof fn lemma_cmp_chars_flip(a: Seq<char>, b: Seq<char>)
    ensures
        cmp_chars(b, a) == flip(cmp_chars(a, b)),
    decreases a.len(),
{
    if a.len() > 0 && b.len() > 0 && a[0] as u32 == b[0] as u32 {
        lemma_cmp_chars_flip(a.drop_first(), b.drop_first());
    }
}

/// The order on texts is transitive.
pub proof fn lemma_cmp_chars_trans(a: Seq<char>, b: Seq<char>, c: Seq<char>)
    requires
        cmp_chars(a, b) == core::cmp::Ordering::Less,
        cmp_chars(b, c) == core::cmp::Ordering::Less,
    ensures
        cmp_chars(a, c) == core::cmp::Ordering::Less,
    decreases a.len(),
{
    if a.len() == 0 {
    } else {
        assert(b.len() > 0);
        assert(c.len() > 0);
        if a[0] as u32 == b[0] as u32 && b[0] as u32 == c[0] as u32 {
            lemma_cmp_chars_trans(a.drop_first(), b.drop_first(), c.drop_first());
        }
    }
}

/// Comparing segment sequences the other way around flips the verdict.
pub proof fn lemma_cmp_segs_flip(a: Seq<Seq<char>>, b: Seq<Seq<char>>)
    ensures
        cmp_segs(b, a) == flip(cmp_segs(a, b)),
    decreases a.len(),
{
    if a.len() > 0 && b.len() > 0 {
        lemma_cmp_chars_flip(a[0], b[0]);
        lemma_cmp_segs_flip(a.drop_first(), b.drop_first());
    }
}

/// The order on segment sequences is transitive.
pub proof fn lemma_cmp_segs_trans(a: Seq<Seq<char>>, b: Seq<Seq<char>>, c: Seq<Seq<char>>)
    requires
        cmp_segs(a, b) == core::cmp::Ordering::Less,
        cmp_segs(b, c) == core::cmp::Ordering::Less,
    ensures
        cmp_segs(a, c) == core::cmp::Ordering::Less,
    decreases a.len(),
{
    if a.len() == 0 {
    } else {
        assert(b.len() > 0);
        assert(c.len() > 0);
        let ab = cmp_chars(a[0], b[0]);
        let bc = cmp_chars(b[0], c[0]);
        lemma_cmp_chars_eq(a[0], b[0]);
        lemma_cmp_chars_eq(b[0], c[0]);
        if ab == core::cmp::Ordering::Equal && bc == core::cmp::Ordering::Equal {
            lemma_cmp_segs_trans(a.drop_first(), b.drop_first(), c.drop_first());
            assert(cmp_chars(a[0], c[0]) == core::cmp::Ordering::Equal);
        } else if ab == core::cmp::Ordering::Equal {
            assert(a[0] == b[0]);
            assert(cmp_chars(a[0], c[0]) == core::cmp::Ordering::Less);
        } else if bc == core::cmp::Ordering::Equal {
            assert(b[0] == c[0]);
            assert(cmp_chars(a[0], c[0]) == core::cmp::Ordering::Less);
        } else {
            assert(ab == core::cmp::Ordering::Less);
            assert(bc == core::cmp::Ordering::Less);
            lemma_cmp_chars_trans(a[0], b[0], c[0]);
        }
    }
}

/// Texts compare equal exactly when they are equal.
pub proof fn lemma_cmp_chars_eq(a: Seq<char>, b: Seq<char>)
    ensures
        cmp_chars(a, b) == core::cmp::Ordering::Equal <==> a == b,
    decreases a.len(),
{
    if a.len() == 0 && b.len() == 0 {
        assert(a =~= b);
    } else if a.len() > 0 && b.len() > 0 && a[0] as u32 == b[0] as u32 {
        vstd::utf8::char_u32_cast(a[0], a[0] as u32);
        vstd::utf8::char_u32_cast(b[0], b[0] as u32);
        assert(a[0] == b[0]);
        lemma_cmp_chars_eq(a.drop_first(), b.drop_first());
        if a.drop_first() == b.drop_first() {
            assert forall|i: int| 0 <= i < a.len() implies a[i] == b[i] by {
                if i > 0 {
                    assert(a[i] == a.drop_first()[i - 1]);
                    assert(b[i] == b.drop_first()[i - 1]);
                }
            }
            assert(a =~= b);
        }
    }
}

/// Segment sequences compare equal exactly when they are equal.
pub proof fn lemma_cmp_segs_eq(a: Seq<Seq<char>>, b: Seq<Seq<char>>)
    ensures
        cmp_segs(a, b) == core::cmp::Ordering::Equal <==> a == b,
    decreases a.len(),
{
    if a.len() == 0 && b.len() == 0 {
        assert(a =~= b);
    } else if a.len() > 0 && b.len() > 0 {
        lemma_cmp_chars_eq(a[0], b[0]);
        lemma_cmp_segs_eq(a.drop_first(), b.drop_first());
        if a.drop_first() == b.drop_first() && a[0] == b[0] {
            assert forall|i: int| 0 <= i < a.len() implies a[i] == b[i] by {
                if i > 0 {
                    assert(a[i] == a.drop_first()[i - 1]);
                    assert(b[i] == b.drop_first()[i - 1]);
                }
            }
            assert(a =~= b);
        }
        if a == b {
            assert(a[0] == b[0]);
            assert(a.drop_first() =~= b.drop_first());
        }
    }
}

/// Compare two texts lexicographically, by code point.
pub fn compare_text(a: &str, b: &str) -> (r: core::cmp::Ordering)
    ensures
        r == cmp_chars(a@, b@),
{
    let n = a.unicode_len();
    let m = b.unicode_len();
    let mut i: usize = 0;
    proof {
        assert(a@.skip(0) =~= a@);
        assert(b@.skip(0) =~= b@);
    }
    while i < n && i < m
        invariant
            n == a@.len(),
            m == b@.len(),
            0 <= i <= n,
            0 <= i <= m,
            cmp_chars(a@, b@) == cmp_chars(a@.skip(i as int), b@.skip(i as int)),
        decreases n - i,
    {
        let ca = a.get_char(i);
        let cb = b.get_char(i);
        proof {
            assert(a@.skip(i as int)[0] == a@[i as int]);
            assert(b@.skip(i as int)[0] == b@[i as int]);
        }
        if (ca as u32) < (cb as u32) {
            return core::cmp::Ordering::Less;
        } else if (ca as u32) > (cb as u32) {
            return core::cmp::Ordering::Greater;
        }
        proof {
            assert(a@.skip(i as int).drop_first() =~= a@.skip(i + 1));
            assert(b@.skip(i as int).drop_first() =~= b@.skip(i + 1));
        }
        i = i + 1;
    }
    proof {
        if i == n {
            assert(a@.skip(i as int) =~= Seq::<char>::empty());
        }
        if i == m {
            assert(b@.skip(i as int) =~= Seq::<char>::empty());
        }
        if i < m {
            assert(b@.skip(i as int).len() > 0);
        }
        if i < n {
            assert(a@.skip(i as int).len() > 0);
        }
    }
    if n < m {
        core::cmp::Ordering::Less
    } else if n > m {
        core::cmp::Ordering::Greater
    } else {
        core::cmp::Ordering::Equal
    }
}

impl Name {
    /// Compare two names lexicographically: the first differing segment
    /// decides, by code point; a proper prefix comes first. This is the
    /// total order under which names serve as map keys.
    pub fn compare(&self, other: &Name) -> (r: core::cmp::Ordering)
        ensures
            r == cmp_segs(self@, other@),
    {
        let n = self.0.len();
        let m = other.0.len();
        let mut i: usize = 0;
        proof {
            assert(self@.skip(0) =~= self@);
            assert(other@.skip(0) =~= other@);
        }
        while i < n && i < m
            invariant
                n == self.0.len(),
                m == other.0.len(),
                self@.len() == n,
                other@.len() == m,
                0 <= i <= n,
                0 <= i <= m,
                cmp_segs(self@, other@) == cmp_segs(self@.skip(i as int), other@.skip(i as int)),
            decreases n - i,
        {
            proof {
                assert(self@.skip(i as int)[0] == self@[i as int]);
                assert(other@.skip(i as int)[0] == other@[i as int]);
                assert(self@[i as int] == self.0@[i as int]@);
                assert(other@[i as int] == other.0@[i as int]@);
            }
            let c = compare_text(self.0[i].as_str(), other.0[i].as_str());
            match c {
                core::cmp::Ordering::Equal => {
                    proof {
                        assert(self@.skip(i as int).drop_first() =~= self@.skip(i + 1));
                        assert(other@.skip(i as int).drop_first() =~= other@.skip(i + 1));
                    }
                    i = i + 1;
                },
                _ => {
                    return c;
                },
            }
        }
        proof {
            if i == n {
                assert(self@.skip(i as int) =~= Seq::<Seq<char>>::empty());
            }
            if i == m {
                assert(other@.skip(i as int) =~= Seq::<Seq<char>>::empty());
            }
            if i < m {
                assert(other@.skip(i as int).len() > 0);
            }
            if i < n {
                assert(self@.skip(i as int).len() > 0);
            }
        }
        if n < m {
            core::cmp::Ordering::Less
        } else if n > m {
            core::cmp::Ordering::Greater
        } else {
            core::cmp::Ordering::Equal
        }
    }
}

// ---------------------------------------------------------------------------
// Splitting on a separator character
// ---------------------------------------------------------------------------
/// The position of the first occurrence of the separator, or the length of
/// the text when the separator does not occur.
pub open spec fn sep_pos(s: Seq<char>, sep: char) -> nat
    decreases s.len(),
{
    if s.len() == 0 {
        0
    } else if s[0] == sep {
        0
    } else {
        1 + sep_pos(s.drop_first(), sep)
    }
}

pub proof fn lemma_sep_pos_le(s: Seq<char>, sep: char)
    ensures
        sep_pos(s, sep) <= s.len(),
    decreases s.len(),
{
    if s.len() > 0 && s[0] != sep {
        lemma_sep_pos_le(s.drop_first(), sep);
    }
}

/// The pieces of a text between occurrences of a separator, in order. There
/// is always one piece more than there are separators; pieces may be empty.
pub open spec fn split_sep(s: Seq<char>, sep: char) -> Seq<Seq<char>>
    decreases s.len(),
    via split_sep_decreases
{
    let p = sep_pos(s, sep) as int;
    if p >= s.len() {
        seq![s]
    } else {
        seq![s.take(p)] + split_sep(s.skip(p + 1), sep)
    }
}

#[via_fn]
proof fn split_sep_decreases(s: Seq<char>, sep: char) {
    lemma_sep_pos_le(s, sep);
}

/// Splitting never yields an empty list of pieces.
pub proof fn lemma_split_sep_len(s: Seq<char>, sep: char)
    ensures
        split_sep(s, sep).len() >= 1,
{
    lemma_sep_pos_le(s, sep);
}

/// How splitting consumes one leading character that is not the separator.
proof fn lemma_split_sep_step(s: Seq<char>, sep: char)
    requires
        s.len() > 0,
        s[0] != sep,
    ensures
        split_sep(s.drop_first(), sep).len() >= 1,
        split_sep(s, sep) == seq![seq![s[0]] + split_sep(s.drop_first(), sep)[0]] + split_sep(
            s.drop_first(),
            sep,
        ).drop_first(),
{
    let t = s.drop_first();
    lemma_split_sep_len(t, sep);
    lemma_sep_pos_le(t, sep);
    let p = sep_pos(t, sep) as int;
    assert(sep_pos(s, sep) == 1 + p);
    if p >= t.len() {
        assert(split_sep(s, sep) == seq![s]);
        assert(split_sep(t, sep) == seq![t]);
        assert(seq![s[0]] + t =~= s);
        assert(split_sep(t, sep).drop_first() =~= Seq::<Seq<char>>::empty());
        assert(seq![seq![s[0]] + split_sep(t, sep)[0]] + split_sep(t, sep).drop_first()
            =~= seq![s]);
    } else {
        assert(split_sep(s, sep) == seq![s.take(p + 1)] + split_sep(s.skip(p + 2), sep));
        assert(split_sep(t, sep) == seq![t.take(p)] + split_sep(t.skip(p + 1), sep));
        assert(s.take(p + 1) =~= seq![s[0]] + t.take(p));
        assert(s.skip(p + 2) =~= t.skip(p + 1));
        assert(split_sep(t, sep)[0] == t.take(p));
        assert(split_sep(t, sep).drop_first() =~= split_sep(t.skip(p + 1), sep));
        assert(seq![seq![s[0]] + split_sep(t, sep)[0]] + split_sep(t, sep).drop_first()
            =~= split_sep(s, sep));
    }
}

/// The remaining pieces, with a partial first piece already scanned: the
/// scanned prefix is glued onto the first remaining piece.
spec fn glue_first(prefix: Seq<char>, pieces: Seq<Seq<char>>) -> Seq<Seq<char>> {
    seq![prefix + pieces[0]] + pieces.drop_first()
}

/// Split a string at every occurrence of a separator character.
pub(crate) fn split_str(input: &str, sep: char) -> (r: Vec<String>)
    ensures
        strs_view(r@) == split_sep(input@, sep),
{
    let ghost s = input@;
    let n = input.unicode_len();
    let mut pieces: Vec<String> = Vec::new();
    let mut cur = String::new();
    let mut i: usize = 0;
    proof {
        assert(s.skip(0) =~= s);
        lemma_split_sep_len(s, sep);
        assert(glue_first(cur@, split_sep(s, sep)) =~= split_sep(s, sep));
        assert(strs_view(pieces@) + glue_first(cur@, split_sep(s, sep)) =~= split_sep(s, sep));
    }
    while i < n
        invariant
            n == s.len(),
            s == input@,
            0 <= i <= n,
            split_sep(s.skip(i as int), sep).len() >= 1,
            strs_view(pieces@) + glue_first(cur@, split_sep(s.skip(i as int), sep)) == split_sep(
                s,
                sep,
            ),
        decreases n - i,
    {
        let ghost t = s.skip(i as int);
        proof {
            assert(t[0] == s[i as int]);
            assert(t.drop_first() =~= s.skip(i + 1));
            lemma_split_sep_len(s.skip(i + 1), sep);
        }
        let c = input.get_char(i);
        let ghost old_pieces = pieces@;
        let ghost old_cur = cur@;
        if c == sep {
            let done = cur;
            pieces.push(done);
            cur = String::new();
            proof {
                let rest = split_sep(s.skip(i + 1), sep);
                assert(sep_pos(t, sep) == 0);
                assert(t.skip(1) =~= s.skip(i + 1));
                assert(split_sep(t, sep) == seq![t.take(0)] + rest);
                assert(t.take(0) =~= Seq::<char>::empty());
                assert(old_cur + t.take(0) =~= old_cur);
                assert(glue_first(old_cur, split_sep(t, sep)) =~= seq![old_cur] + rest);
                assert(cur@ + rest[0] =~= rest[0]);
                assert(glue_first(cur@, rest) =~= rest);
                assert(strs_view(pieces@) =~= strs_view(old_pieces).push(old_cur));
                assert(strs_view(pieces@) + glue_first(cur@, rest) =~= strs_view(old_pieces)
                    + glue_first(old_cur, split_sep(t, sep)));
            }
        } else {
            push_char(&mut cur, c);
            proof {
                lemma_split_sep_step(t, sep);
                assert(split_sep(t.drop_first(), sep) == split_sep(s.skip(i + 1), sep));
                let rest = split_sep(s.skip(i + 1), sep);
                assert(split_sep(t, sep) == seq![seq![t[0]] + rest[0]] + rest.drop_first());
                assert(old_cur + (seq![t[0]] + rest[0]) =~= cur@ + rest[0]);
                assert(glue_first(old_cur, split_sep(t, sep)) =~= glue_first(cur@, rest));
            }
        }
        i = i + 1;
    }
    let ghost old_pieces = pieces@;
    let ghost last_cur = cur@;
    proof {
        assert(s.skip(n as int) =~= Seq::<char>::empty());
        assert(sep_pos(Seq::<char>::empty(), sep) == 0);
        assert(split_sep(Seq::<char>::empty(), sep) == seq![Seq::<char>::empty()]);
        let e = split_sep(Seq::<char>::empty(), sep);
        assert(split_sep(s.skip(n as int), sep) == e);
        assert(last_cur + e[0] =~= last_cur);
        assert(glue_first(last_cur, e) =~= seq![last_cur]);
    }
    pieces.push(cur);
    proof {
        assert(strs_view(pieces@) =~= strs_view(old_pieces) + seq![last_cur]);
        assert(strs_view(pieces@) =~= split_sep(s, sep));
    }
    pieces
}

/// Relies on `Vec::into_boxed_slice`: the boxed slice holds exactly the
/// vector's elements, in order.
#[verifier::external_body]
fn vec_into_boxed_slice(v: Vec<String>) -> (r: Box<[String]>)
    ensures
        r@ == v@,
{
    v.into_boxed_slice()
}

/// Uppercasing distributes over concatenation.
pub proof fn lemma_upped_concat(a: Seq<char>, b: Seq<char>)
    ensures
        upped(a + b) == upped(a) + upped(b),
{
    assert(upped(a + b) =~= upped(a) + upped(b));
}

/// Join a slice of words into a single string uppercased in the Unicode
/// sense, as abbreviation display does; on ASCII words that is the plain
/// letter shift.
pub fn join(words: &[&str]) -> (r: String)
    ensures
        r@ == unicode_upper_of(concat_all(words@.map_values(|w: &str| w@))),
        vstd::utf8::is_ascii_chars(concat_all(words@.map_values(|w: &str| w@))) ==> r@ == upped(
            concat_all(words@.map_values(|w: &str| w@)),
        ),
{
    let ghost ws = words@.map_values(|w: &str| w@);
    let n = words.len();
    let mut cat = String::new();
    let mut i: usize = 0;
    proof {
        assert(ws.take(0) =~= Seq::<Seq<char>>::empty());
        assert(cat@ =~= concat_all(ws.take(0)));
    }
    while i < n
        invariant
            n == ws.len(),
            n == words@.len(),
            ws == words@.map_values(|w: &str| w@),
            0 <= i <= n,
            cat@ == concat_all(ws.take(i as int)),
        decreases n - i,
    {
        let w = words[i];
        cat.append(w);
        proof {
            assert(ws[i as int] == w@);
            assert(ws.take(i + 1) =~= ws.take(i as int).push(ws[i as int]));
            lemma_concat_all_push(ws.take(i as int), ws[i as int]);
        }
        i = i + 1;
    }
    proof {
        assert(ws.take(n as int) =~= ws);
    }
    str_to_uppercase(cat.as_str())
}

} // verus!

verus! {

// ---------------------------------------------------------------------------
// Round-trip laws: re-parsing a rendering recovers the segments
// ---------------------------------------------------------------------------
/// A non-empty segment of lowercase letters only.
pub open spec fn lower_seg(seg: Seq<char>) -> bool {
    seg.len() > 0 && forall|i: int| 0 <= i < seg.len() ==> is_lower(seg[i])
}

/// A non-empty segment of digits only.
pub open spec fn digit_seg(seg: Seq<char>) -> bool {
    seg.len() > 0 && forall|i: int| 0 <= i < seg.len() ==> is_digit_char(seg[i])
}

/// A canonical segment: all lowercase letters or all digits.
pub open spec fn canonical_seg(seg: Seq<char>) -> bool {
    lower_seg(seg) || digit_seg(seg)
}

/// Every segment of the name is canonical.
pub open spec fn all_canonical(segs: Seq<Seq<char>>) -> bool {
    forall|i: int| 0 <= i < segs.len() ==> canonical_seg(segs[i])
}

/// No two digit segments stand next to each other. Tokenizing never yields
/// adjacent digit segments from one spelling without a separator, but a
/// separator between two digit runs does; such names cannot round-trip
/// through a separator-free rendering.
pub open spec fn no_adjacent_digit_segs(segs: Seq<Seq<char>>) -> bool {
    forall|i: int|
        0 <= i < segs.len() - 1 ==> !(digit_seg(#[trigger] segs[i]) && digit_seg(segs[i + 1]))
}

/// Tokenization yields canonical segments only.
pub proof fn lemma_tokenize_canonical(s: Seq<char>)
    ensures
        all_canonical(tokenize(s)),
    decreases s.len(),
{
    if s.len() == 0 {
    } else if is_letter(s[0]) {
        let k = 1 + lower_run(s.drop_first()) as int;
        lemma_lower_run_le(s.drop_first());
        lemma_lower_run_chars(s.drop_first());
        lemma_tokenize_canonical(s.skip(k));
        let seg = lowered(s.take(k));
        assert forall|i: int| 0 <= i < seg.len() implies is_lower(seg[i]) by {
            if i == 0 {
                assert(seg[0] == to_lower(s[0]));
            } else {
                assert(s.take(k)[i] == s.drop_first()[i - 1]);
            }
        }
        assert forall|i: int| 0 <= i < tokenize(s).len() implies canonical_seg(
            tokenize(s)[i],
        ) by {
            if i > 0 {
                assert(tokenize(s)[i] == tokenize(s.skip(k))[i - 1]);
            }
        }
    } else if is_digit_char(s[0]) {
        let k = digit_run(s) as int;
        lemma_digit_run_le(s);
        lemma_digit_run_chars(s);
        lemma_tokenize_canonical(s.skip(k));
        assert forall|i: int| 0 <= i < tokenize(s).len() implies canonical_seg(
            tokenize(s)[i],
        ) by {
            if i > 0 {
                assert(tokenize(s)[i] == tokenize(s.skip(k))[i - 1]);
            } else {
                assert(forall|j: int| 0 <= j < k ==> is_digit_char(s.take(k)[j]));
            }
        }
    } else {
        lemma_tokenize_canonical(s.drop_first());
    }
}

/// A run of lowercase letters stops exactly where a concatenated tail
/// begins, provided the tail does not begin with a lowercase letter.
pub proof fn lemma_lower_run_concat(a: Seq<char>, b: Seq<char>)
    requires
        forall|i: int| 0 <= i < a.len() ==> is_lower(a[i]),
        b.len() > 0 ==> !is_lower(b[0]),
    ensures
        lower_run(a + b) == a.len(),
{
    assert forall|i: int| 0 <= i < a.len() implies is_lower((a + b)[i]) by {
        assert((a + b)[i] == a[i]);
    }
    if a.len() < (a + b).len() {
        assert((a + b)[a.len() as int] == b[0]);
    }
    lemma_lower_run_is(a + b, a.len() as int);
}

/// A run of digits stops exactly where a concatenated tail begins, provided
/// the tail does not begin with a digit.
pub proof fn lemma_digit_run_concat(a: Seq<char>, b: Seq<char>)
    requires
        forall|i: int| 0 <= i < a.len() ==> is_digit_char(a[i]),
        b.len() > 0 ==> !is_digit_char(b[0]),
    ensures
        digit_run(a + b) == a.len(),
{
    assert forall|i: int| 0 <= i < a.len() implies is_digit_char((a + b)[i]) by {
        assert((a + b)[i] == a[i]);
    }
    if a.len() < (a + b).len() {
        assert((a + b)[a.len() as int] == b[0]);
    }
    lemma_digit_run_is(a + b, a.len() as int);
}

/// Tokenizing a title-cased lowercase segment followed by text that begins
/// with an uppercase letter or a digit peels off exactly that segment.
pub proof fn lemma_tokenize_titled_lower(seg: Seq<char>, rest: Seq<char>)
    requires
        lower_seg(seg),
        rest.len() > 0 ==> is_upper(rest[0]) || is_digit_char(rest[0]),
    ensures
        tokenize(title_seg(seg) + rest) == seq![seg] + tokenize(rest),
{
    let s = title_seg(seg) + rest;
    assert(s[0] == to_upper(seg[0]));
    assert(is_upper(s[0]));
    assert(s.drop_first() =~= seg.drop_first() + rest);
    assert(forall|i: int|
        0 <= i < seg.drop_first().len() ==> is_lower(#[trigger] seg.drop_first()[i]));
    lemma_lower_run_concat(seg.drop_first(), rest);
    let k = seg.len() as int;
    assert(tokenize(s) == seq![lowered(s.take(k))] + tokenize(s.skip(k)));
    assert(lowered(s.take(k)) =~= seg) by {
        assert forall|i: int| 0 <= i < k implies to_lower(s.take(k)[i]) == seg[i] by {
            if i == 0 {
                assert(s.take(k)[0] == to_upper(seg[0]));
            } else {
                assert(s.take(k)[i] == seg[i]);
            }
        }
    }
    assert(s.skip(k) =~= rest);
}

/// Tokenizing a lowercase segment followed by text that begins with an
/// uppercase letter or a digit peels off exactly that segment.
pub proof fn lemma_tokenize_lower_head(seg: Seq<char>, rest: Seq<char>)
    requires
        lower_seg(seg),
        rest.len() > 0 ==> is_upper(rest[0]) || is_digit_char(rest[0]),
    ensures
        tokenize(seg + rest) == seq![seg] + tokenize(rest),
{
    let s = seg + rest;
    assert(s[0] == seg[0]);
    assert(s.drop_first() =~= seg.drop_first() + rest);
    assert(forall|i: int|
        0 <= i < seg.drop_first().len() ==> is_lower(#[trigger] seg.drop_first()[i]));
    lemma_lower_run_concat(seg.drop_first(), rest);
    let k = seg.len() as int;
    assert(tokenize(s) == seq![lowered(s.take(k))] + tokenize(s.skip(k)));
    assert(lowered(s.take(k)) =~= seg) by {
        assert forall|i: int| 0 <= i < k implies to_lower(s.take(k)[i]) == seg[i] by {
            assert(s.take(k)[i] == seg[i]);
        }
    }
    assert(s.skip(k) =~= rest);
}

/// Tokenizing a digit segment followed by text that does not begin with a
/// digit peels off exactly that segment.
pub proof fn lemma_tokenize_digit_head(seg: Seq<char>, rest: Seq<char>)
    requires
        digit_seg(seg),
        rest.len() > 0 ==> !is_digit_char(rest[0]),
    ensures
        tokenize(seg + rest) == seq![seg] + tokenize(rest),
{
    let s = seg + rest;
    assert(s[0] == seg[0]);
    assert(!is_letter(s[0]) || false);
    assert forall|i: int| 0 <= i < seg.len() implies is_digit_char(#[trigger] seg[i]) by {}
    lemma_digit_run_concat(seg, rest);
    let k = seg.len() as int;
    assert(tokenize(s) == seq![s.take(k)] + tokenize(s.skip(k)));
    assert(s.take(k) =~= seg);
    assert(s.skip(k) =~= rest);
}

/// The title-case rendering of a non-empty canonical name is non-empty and
/// begins with an uppercase letter or, for a leading digit segment, a digit.
pub proof fn lemma_title_case_head(n: Seq<Seq<char>>)
    requires
        n.len() > 0,
        all_canonical(n),
    ensures
        title_case(n).len() > 0,
        lower_seg(n[0]) ==> is_upper(title_case(n)[0]),
        digit_seg(n[0]) ==> is_digit_char(title_case(n)[0]),
{
    let m = title_all(n);
    assert(m[0] == title_seg(n[0]));
    assert(canonical_seg(n[0]));
    assert(n[0].len() > 0);
    assert(m[0][0] == to_upper(n[0][0]));
    assert(concat_all(m) == m[0] + concat_all(m.drop_first()));
    assert(title_case(n)[0] == m[0][0]);
}

/// Re-parsing the title-case rendering of a canonical name without adjacent
/// digit segments recovers the name exactly.
pub proof fn lemma_title_case_reparse(n: Seq<Seq<char>>)
    requires
        all_canonical(n),
        no_adjacent_digit_segs(n),
    ensures
        tokenize(title_case(n)) == n,
    decreases n.len(),
{
    if n.len() == 0 {
        assert(title_all(n) =~= Seq::<Seq<char>>::empty());
        assert(title_case(n) =~= Seq::<char>::empty());
    } else {
        let tail = n.drop_first();
        assert forall|i: int| 0 <= i < tail.len() implies canonical_seg(#[trigger] tail[i]) by {
            assert(tail[i] == n[i + 1]);
        }
        assert forall|i: int|
            0 <= i < tail.len() - 1 implies !(digit_seg(#[trigger] tail[i]) && digit_seg(
            tail[i + 1],
        )) by {
            assert(tail[i] == n[i + 1]);
            assert(tail[i + 1] == n[i + 2]);
        }
        lemma_title_case_reparse(tail);
        assert(title_all(n).drop_first() =~= title_all(tail));
        assert(title_case(n) == title_seg(n[0]) + title_case(tail));
        if tail.len() > 0 {
            lemma_title_case_head(tail);
            assert(tail[0] == n[1]);
        }
        assert(canonical_seg(n[0]));
        if lower_seg(n[0]) {
            lemma_tokenize_titled_lower(n[0], title_case(tail));
        } else {
            assert(title_seg(n[0]) =~= n[0]);
            if tail.len() > 0 && digit_seg(tail[0]) {
                assert(digit_seg(n[0]) && digit_seg(n[1]));
                assert(false);
            }
            lemma_tokenize_digit_head(n[0], title_case(tail));
        }
        assert(seq![n[0]] + tail =~= n);
    }
}

/// Re-parsing the camel-case rendering of a canonical name without adjacent
/// digit segments recovers the name exactly.
pub proof fn lemma_camel_case_reparse(n: Seq<Seq<char>>)
    requires
        all_canonical(n),
        no_adjacent_digit_segs(n),
    ensures
        tokenize(camel_case(n)) == n,
{
    if n.len() == 0 {
    } else {
        let tail = n.drop_first();
        assert forall|i: int| 0 <= i < tail.len() implies canonical_seg(#[trigger] tail[i]) by {
            assert(tail[i] == n[i + 1]);
        }
        assert forall|i: int|
            0 <= i < tail.len() - 1 implies !(digit_seg(#[trigger] tail[i]) && digit_seg(
            tail[i + 1],
        )) by {
            assert(tail[i] == n[i + 1]);
            assert(tail[i + 1] == n[i + 2]);
        }
        lemma_title_case_reparse(tail);
        if tail.len() > 0 {
            lemma_title_case_head(tail);
            assert(tail[0] == n[1]);
        }
        assert(canonical_seg(n[0]));
        if lower_seg(n[0]) {
            lemma_tokenize_lower_head(n[0], title_case(tail));
        } else {
            if tail.len() > 0 && digit_seg(tail[0]) {
                assert(digit_seg(n[0]) && digit_seg(n[1]));
                assert(false);
            }
            lemma_tokenize_digit_head(n[0], title_case(tail));
        }
        assert(seq![n[0]] + tail =~= n);
    }
}

/// A digit run is maximal: the character right after it, if any, is not a
/// digit.
pub proof fn lemma_digit_run_boundary(s: Seq<char>)
    ensures
        digit_run(s) < s.len() ==> !is_digit_char(s[digit_run(s) as int]),
    decreases s.len(),
{
    if s.len() > 0 && is_digit_char(s[0]) {
        lemma_digit_run_boundary(s.drop_first());
        lemma_digit_run_le(s.drop_first());
        if digit_run(s) < s.len() {
            assert(s.drop_first()[digit_run(s.drop_first()) as int] == s[digit_run(s) as int]);
        }
    }
}

/// A spelling of letters and digits alone never tokenizes to two adjacent
/// digit segments: only a separator can split one digit run in two.
pub proof fn lemma_tokenize_alnum_no_adjacent_digits(s: Seq<char>)
    requires
        forall|i: int| 0 <= i < s.len() ==> is_letter(s[i]) || is_digit_char(#[trigger] s[i]),
    ensures
        no_adjacent_digit_segs(tokenize(s)),
    decreases s.len(),
{
    lemma_tokenize_canonical(s);
    if s.len() == 0 {
    } else if is_letter(s[0]) {
        let k = 1 + lower_run(s.drop_first()) as int;
        lemma_lower_run_le(s.drop_first());
        assert forall|i: int| 0 <= i < s.skip(k).len() implies is_letter(#[trigger] s.skip(k)[i])
            || is_digit_char(s.skip(k)[i]) by {
            assert(s.skip(k)[i] == s[k + i]);
        }
        lemma_tokenize_alnum_no_adjacent_digits(s.skip(k));
        let head = lowered(s.take(k));
        assert(head[0] == to_lower(s[0]));
        assert(!is_digit_char(head[0]));
        assert(!digit_seg(head));
        assert forall|i: int|
            0 <= i < tokenize(s).len() - 1 implies !(digit_seg(#[trigger] tokenize(s)[i])
            && digit_seg(tokenize(s)[i + 1])) by {
            if i > 0 {
                assert(tokenize(s)[i] == tokenize(s.skip(k))[i - 1]);
                assert(tokenize(s)[i + 1] == tokenize(s.skip(k))[i]);
            } else {
                assert(tokenize(s)[0] == head);
            }
        }
    } else {
        let k = digit_run(s) as int;
        lemma_digit_run_le(s);
        lemma_digit_run_chars(s);
        assert forall|i: int| 0 <= i < s.skip(k).len() implies is_letter(#[trigger] s.skip(k)[i])
            || is_digit_char(s.skip(k)[i]) by {
            assert(s.skip(k)[i] == s[k + i]);
        }
        lemma_tokenize_alnum_no_adjacent_digits(s.skip(k));
        if s.skip(k).len() > 0 {
            // The digit run is maximal and the next character is a letter,
            // so the next segment is not a digit segment.
            lemma_digit_run_boundary(s);
            assert(s.skip(k)[0] == s[k]);
            assert(!is_digit_char(s[k]));
            assert(is_letter(s[k]));
            let t = s.skip(k);
            let k2 = 1 + lower_run(t.drop_first()) as int;
            lemma_lower_run_le(t.drop_first());
            assert(tokenize(t)[0] == lowered(t.take(k2)));
            assert(lowered(t.take(k2))[0] == to_lower(t[0]));
            assert(!is_digit_char(lowered(t.take(k2))[0]));
            assert(!digit_seg(tokenize(t)[0]));
        }
        assert forall|i: int|
            0 <= i < tokenize(s).len() - 1 implies !(digit_seg(#[trigger] tokenize(s)[i])
            && digit_seg(tokenize(s)[i + 1])) by {
            if i > 0 {
                assert(tokenize(s)[i] == tokenize(s.skip(k))[i - 1]);
                assert(tokenize(s)[i + 1] == tokenize(s.skip(k))[i]);
            } else {
                assert(tokenize(s)[1] == tokenize(s.skip(k))[0]);
            }
        }
    }
}

/// Idempotence over separator-free spellings: parsing the title-case or
/// camel-case rendering of `parse(s)` recovers `parse(s)` for every input
/// of letters and digits alone.
pub proof fn lemma_round_trip_alnum(s: Seq<char>)
    requires
        forall|i: int| 0 <= i < s.len() ==> is_letter(s[i]) || is_digit_char(#[trigger] s[i]),
    ensures
        tokenize(title_case(tokenize(s))) == tokenize(s),
        tokenize(camel_case(tokenize(s))) == tokenize(s),
{
    lemma_tokenize_alnum_no_adjacent_digits(s);
    lemma_parse_title_case_round_trip(s);
    lemma_parse_camel_case_round_trip(s);
}

/// Idempotence of parsing through title case: `parse(to_title_case(parse(s)))`
/// is `parse(s)`, whenever no separator in `s` splits two digit runs apart
/// (such a split cannot survive a separator-free rendering).
pub proof fn lemma_parse_title_case_round_trip(s: Seq<char>)
    requires
        no_adjacent_digit_segs(tokenize(s)),
    ensures
        tokenize(title_case(tokenize(s))) == tokenize(s),
{
    lemma_tokenize_canonical(s);
    lemma_title_case_reparse(tokenize(s));
}

/// Idempotence of parsing through camel case: `parse(to_camel_case(parse(s)))`
/// is `parse(s)`, whenever no separator in `s` splits two digit runs apart.
pub proof fn lemma_parse_camel_case_round_trip(s: Seq<char>)
    requires
        no_adjacent_digit_segs(tokenize(s)),
    ensures
        tokenize(camel_case(tokenize(s))) == tokenize(s),
{
    lemma_tokenize_canonical(s);
    lemma_camel_case_reparse(tokenize(s));
}

/// Every character inside a lowercase run is a lowercase letter.
pub proof fn lemma_lower_run_chars(s: Seq<char>)
    ensures
        forall|i: int| 0 <= i < lower_run(s) ==> is_lower(s[i]),
    decreases s.len(),
{
    if s.len() > 0 && is_lower(s[0]) {
        lemma_lower_run_chars(s.drop_first());
        lemma_lower_run_le(s.drop_first());
        assert forall|i: int| 0 <= i < lower_run(s) implies is_lower(s[i]) by {
            if i > 0 {
                assert(i - 1 < lower_run(s.drop_first()));
                assert(is_lower(s.drop_first()[i - 1]));
                assert(s.drop_first()[i - 1] == s[i]);
            }
        }
    }
}

/// Every character inside a digit run is a digit.
pub proof fn lemma_digit_run_chars(s: Seq<char>)
    ensures
        forall|i: int| 0 <= i < digit_run(s) ==> is_digit_char(s[i]),
    decreases s.len(),
{
    if s.len() > 0 && is_digit_char(s[0]) {
        lemma_digit_run_chars(s.drop_first());
        lemma_digit_run_le(s.drop_first());
        assert forall|i: int| 0 <= i < digit_run(s) implies is_digit_char(s[i]) by {
            if i > 0 {
                assert(i - 1 < digit_run(s.drop_first()));
                assert(is_digit_char(s.drop_first()[i - 1]));
                assert(s.drop_first()[i - 1] == s[i]);
            }
        }
    }
}

} // verus!
