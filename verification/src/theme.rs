//! Themes as the planner sees them, the names a document uses for them, and
//! the set of them a document draws on.

use vstd::prelude::*;
use crate::error::DomainError;
use crate::ports::ThemeRepository;
use crate::text::chars_of;

verus! {

/// The family name of the body face.
pub const DEFAULT_FONT_FAMILY: &'static str = "DejaVu Sans";

/// The family of the body face the host embeds; it must be the default
/// theme's family, or text would silently fall back to another face.
pub const BODY_FAMILY: &'static str = "DejaVu Sans";

/// The longest theme identifier accepted.
pub const THEME_ID_MAX_LENGTH: usize = 64;

/// Whether `c` may appear in a theme identifier: a lowercase ASCII letter, a
/// digit, or a hyphen.
pub open spec fn theme_id_char(c: char) -> bool {
    ('a' <= c && c <= 'z') || ('0' <= c && c <= '9') || c == '-'
}

/// The first character of `s` that `ok` refuses, if any.
pub open spec fn first_refused(s: Seq<char>, ok: spec_fn(char) -> bool) -> Option<char>
    decreases s.len(),
{
    if s.len() == 0 {
        None
    } else if !ok(s[0]) {
        Some(s[0])
    } else {
        first_refused(s.drop_first(), ok)
    }
}

/// The name a document uses to refer to a theme.
#[derive(Debug, PartialEq, Eq, PartialOrd, Ord, Hash)]
pub struct ThemeId {
    id: String,
}

/// Why a proposed theme identifier is not usable.
#[derive(Debug, Clone, Copy, PartialEq, Eq)]
pub enum InvalidThemeId {
    /// The identifier was empty.
    Empty,
    /// The identifier exceeded the maximum length.
    TooLong {
        /// How many characters the identifier had.
        length: usize,
    },
    /// The identifier contained a character outside the permitted alphabet.
    ForbiddenCharacter {
        /// The first offending character.
        character: char,
    },
}

/// What validating `s` as a theme identifier decides.
pub open spec fn theme_id_verdict(s: Seq<char>) -> Result<(), InvalidThemeId> {
    if s.len() == 0 {
        Err(InvalidThemeId::Empty)
    } else if s.len() > THEME_ID_MAX_LENGTH {
        Err(InvalidThemeId::TooLong { length: s.len() as usize })
    } else {
        match first_refused(s, |c: char| theme_id_char(c)) {
            Some(character) => Err(InvalidThemeId::ForbiddenCharacter { character }),
            None => Ok(()),
        }
    }
}

/// Finds the first character of `chars[from..]` outside the theme-identifier
/// alphabet.
fn find_refused_theme_char(chars: &Vec<char>, from: usize) -> (r: Option<char>)
    requires
        from <= chars.len(),
    ensures
        r == first_refused(chars@.subrange(from as int, chars.len() as int), |c: char| theme_id_char(c)),
    decreases chars.len() - from,
{
    let ghost rest = chars@.subrange(from as int, chars.len() as int);
    if from == chars.len() {
        return None;
    }
    let c = chars[from];
    if !(('a' <= c && c <= 'z') || ('0' <= c && c <= '9') || c == '-') {
        return Some(c);
    }
    assert(rest.drop_first() =~= chars@.subrange(from + 1, chars.len() as int));
    find_refused_theme_char(chars, from + 1)
}

impl ThemeId {
    /// The longest identifier accepted.
    pub const MAX_LENGTH: usize = 64;

    /// The identifier, in specifications.
    pub closed spec fn id_spec(&self) -> Seq<char> {
        self.id@
    }

    /// Every identifier satisfies the rules it was built under.
    pub closed spec fn wf(&self) -> bool {
        theme_id_verdict(self.id@) is Ok
    }

    /// Creates a theme identifier: non-empty, at most 64 characters, and only
    /// lowercase ASCII letters, digits and hyphens.
    pub fn new(id: &str) -> (r: Result<ThemeId, InvalidThemeId>)
        ensures
            theme_id_verdict(id@) is Ok ==> (r matches Ok(t) && t.id_spec() == id@ && t.wf()),
            theme_id_verdict(id@) matches Err(e) ==> r == Err::<ThemeId, InvalidThemeId>(e),
    {
        let chars = chars_of(id);
        if chars.len() == 0 {
            return Err(InvalidThemeId::Empty);
        }
        if chars.len() > 64 {
            return Err(InvalidThemeId::TooLong { length: chars.len() });
        }
        assert(chars@.subrange(0, chars.len() as int) =~= chars@);
        match find_refused_theme_char(&chars, 0) {
            Some(character) => Err(InvalidThemeId::ForbiddenCharacter { character }),
            None => Ok(ThemeId { id: id.to_owned() }),
        }
    }

    /// The identifier.
    pub fn as_str(&self) -> (r: &str)
        ensures
            r@ == self.id_spec(),
    {
        self.id.as_str()
    }

    /// Whether two identifiers are the same.
    pub fn same_as(&self, other: &ThemeId) -> (r: bool)
        ensures
            r == (self.id_spec() == other.id_spec()),
    {
        self.id == other.id
    }
}

impl Clone for ThemeId {
    fn clone(&self) -> (r: ThemeId)
        ensures
            r.id_spec() == self.id_spec(),
            r.wf() == self.wf(),
    {
        ThemeId { id: self.id.clone() }
    }
}

/// The message describing why an identifier was refused.
pub open spec fn theme_id_message(e: InvalidThemeId) -> Seq<char> {
    match e {
        InvalidThemeId::Empty => "theme id must not be empty"@,
        InvalidThemeId::TooLong { length } => "theme id must be at most 64 characters, got "@
            + crate::fmt::decimal(length as nat),
        InvalidThemeId::ForbiddenCharacter { character } =>
            "theme id must contain only lowercase letters, digits and hyphens, but contains "@
                + crate::fmt::debug_char(character),
    }
}

impl InvalidThemeId {
    /// The message describing the refusal.
    pub fn message(&self) -> (r: String)
        ensures
            r@ == theme_id_message(*self),
    {
        match self {
            InvalidThemeId::Empty => String::from_str("theme id must not be empty"),
            InvalidThemeId::TooLong { length } => {
                let mut out = String::from_str("theme id must be at most 64 characters, got ");
                crate::fmt::push_decimal(&mut out, *length as u64);
                out
            },
            InvalidThemeId::ForbiddenCharacter { character } => {
                let mut out = String::from_str(
                    "theme id must contain only lowercase letters, digits and hyphens, but contains ",
                );
                crate::fmt::push_debug_char(&mut out, *character);
                out
            },
        }
    }
}

/// A complete visual treatment as the planner sees it: how the page is shaped
/// and how text is set, each half identified by a key.
///
/// The planner needs only to know whether two halves are the same, and a key
/// is what says so: two page geometries (or two typographies) are the same
/// exactly when their keys are. What a key stands for is kept by whoever
/// registers the themes, which also turns a planned theme back into the
/// dimensions it is set with.
#[derive(Debug, Clone, Copy, PartialEq, Eq, Structural)]
pub struct Theme {
    /// The page geometry's key.
    pub geometry: u64,
    /// The typography's key.
    pub typography: u64,
}

impl Theme {
    /// Creates a theme from the keys of its two halves.
    pub fn new(geometry: u64, typography: u64) -> (r: Theme)
        ensures
            r.geometry == geometry,
            r.typography == typography,
    {
        Theme { geometry, typography }
    }

    /// The page geometry's key.
    pub fn geometry(&self) -> (r: u64)
        ensures
            r == self.geometry,
    {
        self.geometry
    }

    /// The typography's key.
    pub fn typography(&self) -> (r: u64)
        ensures
            r == self.typography,
    {
        self.typography
    }
}

/// What changes when the document moves from one theme to another.
///
/// A page-geometry change starts a new page; a typography change continues on
/// the current one.
#[derive(Debug, Clone, Copy, PartialEq, Eq, Structural)]
pub enum ThemeTransition {
    /// Nothing observable changes.
    Unchanged,
    /// Text is set differently, on the same page.
    TypographyOnly,
    /// The page is shaped differently, so a new page begins.
    PageGeometry,
}

/// The transition from `previous` to `next`: geometry is compared first,
/// because a geometry change forces a page break whatever else changes.
pub open spec fn classify_spec(previous: Theme, next: Theme) -> ThemeTransition {
    if previous.geometry != next.geometry {
        ThemeTransition::PageGeometry
    } else if previous.typography != next.typography {
        ThemeTransition::TypographyOnly
    } else {
        ThemeTransition::Unchanged
    }
}

/// The description of a transition.
pub open spec fn transition_description(t: ThemeTransition) -> Seq<char> {
    match t {
        ThemeTransition::Unchanged => "no change"@,
        ThemeTransition::TypographyOnly => "typography only, continues on the same page"@,
        ThemeTransition::PageGeometry => "page geometry, starts a new page"@,
    }
}

impl ThemeTransition {
    /// Classifies the move from `previous` to `next`.
    pub fn classify(previous: &Theme, next: &Theme) -> (r: ThemeTransition)
        ensures
            r == classify_spec(*previous, *next),
    {
        if previous.geometry != next.geometry {
            ThemeTransition::PageGeometry
        } else if previous.typography != next.typography {
            ThemeTransition::TypographyOnly
        } else {
            ThemeTransition::Unchanged
        }
    }

    /// Whether the layout engine will start a new page at this transition.
    pub fn forces_page_break(self) -> (r: bool)
        ensures
            r == (self == ThemeTransition::PageGeometry),
    {
        match self {
            ThemeTransition::PageGeometry => true,
            _ => false,
        }
    }

    /// Whether this transition must appear in the output at all.
    pub fn requires_emission(self) -> (r: bool)
        ensures
            r == (self != ThemeTransition::Unchanged),
    {
        match self {
            ThemeTransition::Unchanged => false,
            _ => true,
        }
    }

    /// Describes the transition for an author.
    pub fn description(self) -> (r: &'static str)
        ensures
            r@ == transition_description(self),
    {
        match self {
            ThemeTransition::Unchanged => "no change",
            ThemeTransition::TypographyOnly => "typography only, continues on the same page",
            ThemeTransition::PageGeometry => "page geometry, starts a new page",
        }
    }
}

/// A transition is unchanged exactly when the two themes are the same, and it
/// forces a page break exactly when their geometries differ.
pub proof fn lemma_classify_agrees_with_equality(previous: Theme, next: Theme)
    ensures
        (classify_spec(previous, next) == ThemeTransition::Unchanged) == (previous == next),
        (classify_spec(previous, next) == ThemeTransition::PageGeometry) == (previous.geometry
            != next.geometry),
{
}

/// The themes an entry list names, by identifier.
pub open spec fn named_map(s: Seq<(ThemeId, Theme)>) -> Map<Seq<char>, Theme> {
    Map::new(
        |id: Seq<char>| exists|i: int| 0 <= i < s.len() && #[trigger] s[i].0.id_spec() == id,
        |id: Seq<char>| {
            let i = choose|i: int| 0 <= i < s.len() && #[trigger] s[i].0.id_spec() == id;
            s[i].1
        },
    )
}

/// Whether no identifier appears twice in an entry list.
pub open spec fn distinct_ids(s: Seq<(ThemeId, Theme)>) -> bool {
    forall|i: int, j: int| 0 <= i < s.len() && 0 <= j < s.len() && i != j ==> s[i].0.id_spec() != s[j].0.id_spec()
}

/// In a list without repeated identifiers, an entry's identifier names
/// exactly that entry's theme.
proof fn lemma_named_map_at(s: Seq<(ThemeId, Theme)>, i: int)
    requires
        distinct_ids(s),
        0 <= i < s.len(),
    ensures
        named_map(s).contains_key(s[i].0.id_spec()),
        named_map(s)[s[i].0.id_spec()] == s[i].1,
{
    let id = s[i].0.id_spec();
    assert(exists|k: int| 0 <= k < s.len() && #[trigger] s[k].0.id_spec() == id);
    let j = choose|k: int| 0 <= k < s.len() && #[trigger] s[k].0.id_spec() == id;
    assert(j == i);
}

/// Where `id` sits in an entry list, if it does.
fn position_of(named: &Vec<(ThemeId, Theme)>, id: &ThemeId) -> (r: Option<usize>)
    ensures
        r matches Some(i) ==> i < named@.len() && named@[i as int].0.id_spec() == id.id_spec(),
        r is None ==> forall|k: int| 0 <= k < named@.len() ==> #[trigger] named@[k].0.id_spec() != id.id_spec(),
{
    let mut i: usize = 0;
    while i < named.len()
        invariant
            i <= named@.len(),
            forall|k: int| 0 <= k < i ==> #[trigger] named@[k].0.id_spec() != id.id_spec(),
        decreases named.len() - i,
    {
        if named[i].0.same_as(id) {
            return Some(i);
        }
        i = i + 1;
    }
    None
}

/// Whether identifier `a` sorts before `b`: character by character, a proper
/// prefix first.
pub open spec fn sorts_before(a: Seq<char>, b: Seq<char>) -> bool
    decreases a.len(),
{
    if b.len() == 0 {
        false
    } else if a.len() == 0 {
        true
    } else if a[0] != b[0] {
        a[0] < b[0]
    } else {
        sorts_before(a.drop_first(), b.drop_first())
    }
}

proof fn lemma_sorts_before_irreflexive(a: Seq<char>)
    ensures
        !sorts_before(a, a),
    decreases a.len(),
{
    if a.len() > 0 {
        lemma_sorts_before_irreflexive(a.drop_first());
    }
}

proof fn lemma_sorts_before_asymmetric(a: Seq<char>, b: Seq<char>)
    requires
        sorts_before(a, b),
    ensures
        !sorts_before(b, a),
    decreases a.len(),
{
    if a.len() > 0 && b.len() > 0 && a[0] == b[0] {
        lemma_sorts_before_asymmetric(a.drop_first(), b.drop_first());
    }
}

proof fn lemma_sorts_before_total(a: Seq<char>, b: Seq<char>)
    requires
        a != b,
    ensures
        sorts_before(a, b) || sorts_before(b, a),
    decreases a.len(),
{
    if a.len() > 0 && b.len() > 0 && a[0] == b[0] {
        if a.drop_first() == b.drop_first() {
            assert(a =~= seq![a[0]] + a.drop_first());
            assert(b =~= seq![b[0]] + b.drop_first());
        }
        lemma_sorts_before_total(a.drop_first(), b.drop_first());
    } else if a.len() == 0 && b.len() == 0 {
        assert(a =~= b);
    }
}

proof fn lemma_sorts_before_transitive(a: Seq<char>, b: Seq<char>, c: Seq<char>)
    requires
        sorts_before(a, b),
        sorts_before(b, c),
    ensures
        sorts_before(a, c),
    decreases a.len(),
{
    if a.len() > 0 && b.len() > 0 && c.len() > 0 && a[0] == b[0] && b[0] == c[0] {
        lemma_sorts_before_transitive(a.drop_first(), b.drop_first(), c.drop_first());
    }
}

/// Whether the identifier of `a` sorts before that of `b`.
fn id_sorts_before(a: &ThemeId, b: &ThemeId) -> (r: bool)
    ensures
        r == sorts_before(a.id_spec(), b.id_spec()),
{
    let x = chars_of(a.as_str());
    let y = chars_of(b.as_str());
    assert(x@.skip(0) =~= x@);
    assert(y@.skip(0) =~= y@);
    let mut i: usize = 0;
    while i < x.len() && i < y.len() && x[i] == y[i]
        invariant
            i <= x@.len(),
            i <= y@.len(),
            x@ == a.id_spec(),
            y@ == b.id_spec(),
            sorts_before(x@, y@) == sorts_before(x@.skip(i as int), y@.skip(i as int)),
        decreases x.len() - i,
    {
        proof {
            assert(x@.skip(i as int).drop_first() =~= x@.skip(i + 1));
            assert(y@.skip(i as int).drop_first() =~= y@.skip(i + 1));
        }
        i = i + 1;
    }
    proof {
        if i < x.len() && i < y.len() {
            assert(x@.skip(i as int)[0] == x@[i as int]);
            assert(y@.skip(i as int)[0] == y@[i as int]);
        }
    }
    if i == y.len() {
        false
    } else if i == x.len() {
        true
    } else {
        x[i] < y[i]
    }
}

/// Whether a run of identifiers is in strictly increasing order.
pub open spec fn strictly_sorted(s: Seq<Seq<char>>) -> bool {
    forall|i: int, j: int| 0 <= i < j < s.len() ==> sorts_before(#[trigger] s[i], #[trigger] s[j])
}

/// Two runs holding the same identifiers, each in increasing order, are the
/// same run: the order in which themes are listed depends on their
/// identifiers alone, never on the order they were added in.
pub proof fn lemma_sorted_ids_are_unique(a: Seq<Seq<char>>, b: Seq<Seq<char>>)
    requires
        strictly_sorted(a),
        strictly_sorted(b),
        forall|x: Seq<char>| a.contains(x) <==> b.contains(x),
    ensures
        a == b,
    decreases a.len(),
{
    if a.len() == 0 {
        if b.len() > 0 {
            assert(b.contains(b[0]));
        }
        assert(a =~= b);
    } else if b.len() == 0 {
        assert(a.contains(a[0]));
    } else {
        assert(a.contains(a[0]));
        assert(b.contains(b[0]));
        let i = choose|i: int| 0 <= i < b.len() && b[i] == a[0];
        let j = choose|j: int| 0 <= j < a.len() && a[j] == b[0];
        if i > 0 {
            assert(sorts_before(b[0], b[i]));
            if j > 0 {
                assert(sorts_before(a[0], a[j]));
                lemma_sorts_before_asymmetric(b[0], a[0]);
            } else {
                lemma_sorts_before_irreflexive(b[0]);
            }
        }
        assert(a[0] == b[0]) by {
            if i > 0 {
                assert(sorts_before(b[0], b[i]));
                if j > 0 {
                    assert(sorts_before(a[0], a[j]));
                    lemma_sorts_before_asymmetric(b[0], a[0]);
                } else {
                    lemma_sorts_before_irreflexive(b[0]);
                }
            }
        }
        let a1 = a.drop_first();
        let b1 = b.drop_first();
        assert forall|x: Seq<char>| a1.contains(x) <==> b1.contains(x) by {
            if a1.contains(x) {
                let k = choose|k: int| 0 <= k < a1.len() && a1[k] == x;
                assert(a[k + 1] == x);
                assert(sorts_before(a[0], x));
                assert(b.contains(x));
                let m = choose|m: int| 0 <= m < b.len() && b[m] == x;
                if m == 0 {
                    lemma_sorts_before_irreflexive(x);
                }
                assert(b1[m - 1] == x);
            }
            if b1.contains(x) {
                let k = choose|k: int| 0 <= k < b1.len() && b1[k] == x;
                assert(b[k + 1] == x);
                assert(sorts_before(b[0], x));
                assert(a.contains(x));
                let m = choose|m: int| 0 <= m < a.len() && a[m] == x;
                if m == 0 {
                    lemma_sorts_before_irreflexive(x);
                }
                assert(a1[m - 1] == x);
            }
        }
        assert(strictly_sorted(a1)) by {
            assert forall|i: int, j: int| 0 <= i < j < a1.len() implies sorts_before(#[trigger] a1[i], #[trigger] a1[j]) by {
                assert(a1[i] == a[i + 1] && a1[j] == a[j + 1]);
            }
        }
        assert(strictly_sorted(b1)) by {
            assert forall|i: int, j: int| 0 <= i < j < b1.len() implies sorts_before(#[trigger] b1[i], #[trigger] b1[j]) by {
                assert(b1[i] == b[i + 1] && b1[j] == b[j + 1]);
            }
        }
        lemma_sorted_ids_are_unique(a1, b1);
        assert(a =~= seq![a[0]] + a1);
        assert(b =~= seq![b[0]] + b1);
    }
}

/// The identifiers of a run of themes.
pub open spec fn id_texts(s: Seq<ThemeId>) -> Seq<Seq<char>> {
    s.map_values(|t: ThemeId| t.id_spec())
}

/// The themes available to a document: a default, and named themes.
#[derive(Debug, PartialEq)]
pub struct ThemeSet {
    default: Theme,
    named: Vec<(ThemeId, Theme)>,
}

impl ThemeSet {
    /// The default theme, in specifications.
    pub closed spec fn default_spec(&self) -> Theme {
        self.default
    }

    /// The named themes, by identifier.
    pub closed spec fn named_spec(&self) -> Map<Seq<char>, Theme> {
        named_map(self.named@)
    }

    /// No identifier is named twice.
    #[verifier::type_invariant]
    spec fn inv(self) -> bool {
        distinct_ids(self.named@)
    }

    /// A set holding only a default theme.
    pub fn new(default: Theme) -> (r: ThemeSet)
        ensures
            r.default_spec() == default,
            r.named_spec() == Map::<Seq<char>, Theme>::empty(),
    {
        let r = ThemeSet { default, named: Vec::new() };
        assert(r.named_spec() =~= Map::<Seq<char>, Theme>::empty());
        r
    }

    /// The same set with `theme` named `id`, replacing any theme of that name.
    pub fn with(self, id: ThemeId, theme: Theme) -> (r: ThemeSet)
        ensures
            r.default_spec() == self.default_spec(),
            r.named_spec() == self.named_spec().insert(id.id_spec(), theme),
    {
        proof { use_type_invariant(&self); }
        let mut named = self.named;
        let ghost before = named@;
        let ghost key = id.id_spec();
        let position = position_of(&named, &id);
        match position {
            Some(i) => {
                named.set(i, (id, theme));
            },
            None => {
                named.push((id, theme));
            },
        }
        let ghost after = named@;
        let ghost m = named_map(before).insert(key, theme);
        proof {
            let n: int = if position is Some { before.len() as int } else { before.len() + 1int };
            assert(after.len() == n);
            let at: int = match position { Some(i) => i as int, None => before.len() as int };
            assert(after[at].0.id_spec() == key && after[at].1 == theme);
            assert forall|k: int| 0 <= k < after.len() && k != at implies #[trigger] after[k] == before[k] by {}
            assert(distinct_ids(after)) by {
                assert forall|a: int, b: int| 0 <= a < after.len() && 0 <= b < after.len() && a != b
                    implies after[a].0.id_spec() != after[b].0.id_spec() by {
                    if a != at && b != at {
                        assert(after[a] == before[a] && after[b] == before[b]);
                    } else if a == at {
                        assert(after[b] == before[b]);
                        match position {
                            Some(i) => assert(before[b].0.id_spec() != before[i as int].0.id_spec()),
                            None => assert(before[b].0.id_spec() != key),
                        }
                    } else {
                        assert(after[a] == before[a]);
                        match position {
                            Some(i) => assert(before[a].0.id_spec() != before[i as int].0.id_spec()),
                            None => assert(before[a].0.id_spec() != key),
                        }
                    }
                }
            }
            assert forall|k2: Seq<char>| #[trigger] named_map(after).contains_key(k2) == m.contains_key(k2) by {
                if k2 == key {
                    lemma_named_map_at(after, at);
                } else {
                    if named_map(before).contains_key(k2) {
                        let j = choose|j: int| 0 <= j < before.len() && #[trigger] before[j].0.id_spec() == k2;
                        assert(after[j] == before[j]);
                        lemma_named_map_at(after, j);
                    }
                    if named_map(after).contains_key(k2) {
                        let j = choose|j: int| 0 <= j < after.len() && #[trigger] after[j].0.id_spec() == k2;
                        assert(j != at);
                        assert(after[j] == before[j]);
                    }
                }
            }
            assert forall|k2: Seq<char>| named_map(after).contains_key(k2) implies #[trigger] named_map(after)[k2] == m[k2] by {
                if k2 == key {
                    lemma_named_map_at(after, at);
                } else {
                    let j = choose|j: int| 0 <= j < after.len() && #[trigger] after[j].0.id_spec() == k2;
                    assert(j != at);
                    assert(after[j] == before[j]);
                    lemma_named_map_at(after, j);
                    lemma_named_map_at(before, j);
                }
            }
            assert(named_map(after) =~= m);
        }
        ThemeSet { default: self.default, named }
    }

    /// The default theme.
    pub fn default_theme(&self) -> (r: Theme)
        ensures
            r == self.default_spec(),
    {
        self.default
    }

    /// The theme named `id`, if the set defines one.
    pub fn get(&self, id: &ThemeId) -> (r: Option<Theme>)
        ensures
            r is Some == self.named_spec().contains_key(id.id_spec()),
            r matches Some(t) ==> t == self.named_spec()[id.id_spec()],
    {
        proof { use_type_invariant(self); }
        match position_of(&self.named, id) {
            Some(i) => {
                proof { lemma_named_map_at(self.named@, i as int); }
                Some(self.named[i].1)
            },
            None => None,
        }
    }

    /// The identifiers the set names, each once, in increasing order, so the
    /// listing depends on the identifiers alone.
    pub fn ids(&self) -> (r: Vec<ThemeId>)
        ensures
            strictly_sorted(id_texts(r@)),
            forall|k: int| 0 <= k < r@.len() ==> self.named_spec().contains_key(#[trigger] r@[k].id_spec()),
            forall|key: Seq<char>| self.named_spec().contains_key(key) ==> exists|k: int| 0 <= k < r@.len() && #[trigger] r@[k].id_spec() == key,
    {
        proof { use_type_invariant(self); }
        let mut r: Vec<ThemeId> = Vec::new();
        let mut i: usize = 0;
        while i < self.named.len()
            invariant
                i <= self.named@.len(),
                distinct_ids(self.named@),
                strictly_sorted(id_texts(r@)),
                forall|k: int| #![trigger r@[k]] 0 <= k < r@.len() ==> exists|j: int| 0 <= j < i && r@[k].id_spec() == #[trigger] self.named@[j].0.id_spec(),
                forall|j: int| #![trigger self.named@[j]] 0 <= j < i ==> exists|k: int| 0 <= k < r@.len() && #[trigger] r@[k].id_spec() == self.named@[j].0.id_spec(),
            decreases self.named.len() - i,
        {
            let id = self.named[i].0.clone();
            let ghost key = id.id_spec();
            proof {
                assert forall|k: int| 0 <= k < r@.len() implies #[trigger] r@[k].id_spec() != key by {
                    let j = choose|j: int| 0 <= j < i && r@[k].id_spec() == #[trigger] self.named@[j].0.id_spec();
                    assert(self.named@[j].0.id_spec() != self.named@[i as int].0.id_spec());
                }
            }
            let mut p: usize = 0;
            while p < r.len() && id_sorts_before(&r[p], &id)
                invariant
                    p <= r@.len(),
                    id.id_spec() == key,
                    forall|k: int| 0 <= k < p ==> sorts_before(#[trigger] r@[k].id_spec(), key),
                decreases r.len() - p,
            {
                p = p + 1;
            }
            let ghost old_r = r@;
            proof {
                if p < old_r.len() {
                    assert(old_r[p as int].id_spec() != key);
                    lemma_sorts_before_total(old_r[p as int].id_spec(), key);
                    assert(sorts_before(key, old_r[p as int].id_spec()));
                }
            }
            r.insert(p, id);
            proof {
                let t = id_texts(r@);
                let o = id_texts(old_r);
                assert(r@ =~= old_r.insert(p as int, r@[p as int]));
                assert forall|a: int, b: int| 0 <= a < b < t.len() implies sorts_before(#[trigger] t[a], #[trigger] t[b]) by {
                    if b < p {
                        assert(t[a] == o[a] && t[b] == o[b]);
                    } else if a > p {
                        assert(t[a] == o[a - 1] && t[b] == o[b - 1]);
                    } else if a == p {
                        assert(t[b] == o[b - 1]);
                        if b - 1 > p {
                            assert(sorts_before(o[p as int], o[b - 1]));
                            lemma_sorts_before_transitive(key, o[p as int], o[b - 1]);
                        }
                    } else if b == p {
                        assert(t[a] == o[a]);
                    } else {
                        assert(t[a] == o[a] && t[b] == o[b - 1]);
                    }
                }
                assert forall|k: int| #![trigger r@[k]] 0 <= k < r@.len() implies exists|j: int| 0 <= j < i + 1 && r@[k].id_spec() == #[trigger] self.named@[j].0.id_spec() by {
                    if k < p {
                        assert(r@[k] == old_r[k]);
                    } else if k > p {
                        assert(r@[k] == old_r[k - 1]);
                    } else {
                        assert(r@[k].id_spec() == self.named@[i as int].0.id_spec());
                    }
                }
                assert forall|j: int| #![trigger self.named@[j]] 0 <= j < i + 1 implies exists|k: int| 0 <= k < r@.len() && #[trigger] r@[k].id_spec() == self.named@[j].0.id_spec() by {
                    if j == i {
                        assert(r@[p as int].id_spec() == self.named@[j].0.id_spec());
                    } else {
                        let k = choose|k: int| 0 <= k < old_r.len() && #[trigger] old_r[k].id_spec() == self.named@[j].0.id_spec();
                        if k < p {
                            assert(r@[k] == old_r[k]);
                        } else {
                            assert(r@[k + 1] == old_r[k]);
                        }
                    }
                }
            }
            i = i + 1;
        }
        proof {
            assert forall|k: int| 0 <= k < r@.len() implies self.named_spec().contains_key(#[trigger] r@[k].id_spec()) by {
                let j = choose|j: int| 0 <= j < self.named@.len() && r@[k].id_spec() == #[trigger] self.named@[j].0.id_spec();
                lemma_named_map_at(self.named@, j);
            }
            assert forall|key: Seq<char>| self.named_spec().contains_key(key) implies exists|k: int| 0 <= k < r@.len() && #[trigger] r@[k].id_spec() == key by {
                let j = choose|j: int| 0 <= j < self.named@.len() && #[trigger] self.named@[j].0.id_spec() == key;
                let k = choose|k: int| 0 <= k < r@.len() && #[trigger] r@[k].id_spec() == self.named@[j].0.id_spec();
                assert(r@[k].id_spec() == key);
            }
        }
        r
    }
}

/// The built-in landscape theme.
pub const WIDE: &'static str = "wide";

/// The built-in large-print theme.
pub const LARGE_PRINT: &'static str = "large-print";

/// The key of the default page geometry: A4 portrait, 20 mm margins.
pub const DEFAULT_GEOMETRY: u64 = 0;

/// The key of the landscape page geometry: A4 landscape, 20 mm margins.
pub const WIDE_GEOMETRY: u64 = 1;

/// The key of the default typography: 11 pt on 15.4 pt.
pub const DEFAULT_TYPOGRAPHY: u64 = 0;

/// The key of the large-print typography: 16 pt on 22 pt, same family.
pub const LARGE_PRINT_TYPOGRAPHY: u64 = 1;

/// The themes every document can use without defining any.
#[derive(Debug, Clone, Copy, Default)]
pub struct BuiltInThemes {}

impl BuiltInThemes {
    /// The built-in themes.
    pub fn new() -> (r: BuiltInThemes)
        ensures
            r == (BuiltInThemes {}),
    {
        BuiltInThemes {}
    }
}

/// A theme identifier, or the refusal of a theme named so.
fn theme_id(name: &str) -> (r: Result<ThemeId, DomainError>)
    ensures
        theme_id_verdict(name@) is Ok ==> (r matches Ok(id) && id.id_spec() == name@),
{
    match ThemeId::new(name) {
        Ok(id) => Ok(id),
        Err(error) => Err(DomainError::InvalidTheme { id: name.to_owned(), reason: error.message() }),
    }
}

/// The theme a document is set in where nothing overrides it: an upright A4
/// page and the body typography.
pub fn built_in_default_theme() -> (r: Theme)
    ensures
        r == (Theme { geometry: DEFAULT_GEOMETRY, typography: DEFAULT_TYPOGRAPHY }),
{
    Theme::new(DEFAULT_GEOMETRY, DEFAULT_TYPOGRAPHY)
}

impl Default for ThemeSet {
    /// A set holding only the built-in default theme.
    fn default() -> (r: ThemeSet)
        ensures
            r.default_spec() == (Theme { geometry: DEFAULT_GEOMETRY, typography: DEFAULT_TYPOGRAPHY }),
            r.named_spec() == Map::<Seq<char>, Theme>::empty(),
    {
        ThemeSet::new(built_in_default_theme())
    }
}

impl ThemeRepository for BuiltInThemes {
    /// Always the built-in set.
    open spec fn loads(&self, answer: Result<ThemeSet, DomainError>) -> bool {
        answer matches Ok(set) && set.default_spec() == (Theme { geometry: DEFAULT_GEOMETRY, typography: DEFAULT_TYPOGRAPHY })
            && set.named_spec() == Map::<Seq<char>, Theme>::empty()
                .insert("wide"@, Theme { geometry: WIDE_GEOMETRY, typography: DEFAULT_TYPOGRAPHY })
                .insert("large-print"@, Theme { geometry: DEFAULT_GEOMETRY, typography: LARGE_PRINT_TYPOGRAPHY })
    }

    /// The default theme, `wide` with the landscape geometry, and
    /// `large-print` with the large typography.
    fn load(&self) -> (r: Result<ThemeSet, DomainError>)
        ensures
            r matches Ok(set) && set.default_spec() == (Theme { geometry: DEFAULT_GEOMETRY, typography: DEFAULT_TYPOGRAPHY })
                && set.named_spec() == Map::<Seq<char>, Theme>::empty()
                    .insert("wide"@, Theme { geometry: WIDE_GEOMETRY, typography: DEFAULT_TYPOGRAPHY })
                    .insert("large-print"@, Theme { geometry: DEFAULT_GEOMETRY, typography: LARGE_PRINT_TYPOGRAPHY }),
    {
        proof {
            reveal_strlit("wide");
            reveal_strlit("large-print");
            reveal_with_fuel(first_refused, 12);
            assert(theme_id_verdict("wide"@) is Ok);
            assert(theme_id_verdict("large-print"@) is Ok);
        }
        let default = Theme::new(DEFAULT_GEOMETRY, DEFAULT_TYPOGRAPHY);
        let wide = theme_id(WIDE)?;
        let large = theme_id(LARGE_PRINT)?;
        Ok(ThemeSet::new(default)
            .with(wide, Theme::new(WIDE_GEOMETRY, DEFAULT_TYPOGRAPHY))
            .with(large, Theme::new(DEFAULT_GEOMETRY, LARGE_PRINT_TYPOGRAPHY)))
    }
}

} // verus!
