//! The field registry: a mapping from widget identity to its tagged
//! dimension field and last-known value.
//!
//! The registry is rebuilt from scratch every time the options screen is
//! entered (`clear`, then one `register` per kind), holds at most one field
//! per widget identity and at most one per dimension kind, and exposes
//! validity aggregation (`all_valid`) and value extraction (`extract`).

use crate::parse::parse_or_zero;
use vstd::pervasive::VecAdditionalExecFns;
use vstd::prelude::*;

verus! {

/// A stable, opaque handle to one UI input widget: a slot index plus a
/// generation counter, so that a handle to a torn-down widget never aliases
/// a live one. Supplied and owned by the presentation layer.
#[derive(Clone, Copy, Debug, PartialEq, Eq, Structural)]
pub struct WidgetId {
    pub index: u32,
    pub generation: u32,
}

/// Which of the three dimensions a field carries.
#[derive(Clone, Copy, Debug, PartialEq, Eq, Structural)]
pub enum DimensionKind {
    Width,
    Length,
    Height,
}

/// A tagged dimension field: one of the three kinds, carrying the
/// non-negative value last parsed from that widget's text.
#[derive(Clone, Copy, Debug, PartialEq, Eq, Structural)]
pub enum Dimension {
    Length(u32),
    Width(u32),
    Height(u32),
}

impl Dimension {
    pub open spec fn kind(self) -> DimensionKind {
        match self {
            Dimension::Length(_) => DimensionKind::Length,
            Dimension::Width(_) => DimensionKind::Width,
            Dimension::Height(_) => DimensionKind::Height,
        }
    }

    pub open spec fn value(self) -> u32 {
        match self {
            Dimension::Length(n) => n,
            Dimension::Width(n) => n,
            Dimension::Height(n) => n,
        }
    }

    /// The same kind of field, holding `n` instead.
    pub open spec fn with_value(self, n: u32) -> Dimension {
        match self {
            Dimension::Length(_) => Dimension::Length(n),
            Dimension::Width(_) => Dimension::Width(n),
            Dimension::Height(_) => Dimension::Height(n),
        }
    }

    /// A fresh field of the given kind, holding 0 ("not yet valid").
    pub open spec fn zero_of(kind: DimensionKind) -> Dimension {
        match kind {
            DimensionKind::Length => Dimension::Length(0),
            DimensionKind::Width => Dimension::Width(0),
            DimensionKind::Height => Dimension::Height(0),
        }
    }

    pub fn get_kind(&self) -> (k: DimensionKind)
        ensures
            k == self.kind(),
    {
        match self {
            Dimension::Length(_) => DimensionKind::Length,
            Dimension::Width(_) => DimensionKind::Width,
            Dimension::Height(_) => DimensionKind::Height,
        }
    }

    pub fn get_value(&self) -> (n: u32)
        ensures
            n == self.value(),
    {
        match self {
            Dimension::Length(n) => *n,
            Dimension::Width(n) => *n,
            Dimension::Height(n) => *n,
        }
    }

    pub fn replace_value(self, n: u32) -> (d: Dimension)
        ensures
            d == self.with_value(n),
    {
        match self {
            Dimension::Length(_) => Dimension::Length(n),
            Dimension::Width(_) => Dimension::Width(n),
            Dimension::Height(_) => Dimension::Height(n),
        }
    }

    pub fn zero_field(kind: DimensionKind) -> (d: Dimension)
        ensures
            d == Dimension::zero_of(kind),
    {
        match kind {
            DimensionKind::Length => Dimension::Length(0),
            DimensionKind::Width => Dimension::Width(0),
            DimensionKind::Height => Dimension::Height(0),
        }
    }
}

/// Why a registry call was refused. All of these are reported, recoverable
/// conditions; none aborts the flow.
#[derive(Clone, Copy, Debug, PartialEq, Eq, Structural)]
pub enum RegistryError {
    /// The identity was never registered, or its widget was torn down.
    UnknownWidget,
    /// The identity is already registered.
    DuplicateWidget,
    /// A field of this kind is already registered.
    DuplicateKind,
}

#[derive(Clone, Copy)]
struct Entry {
    id: WidgetId,
    field: Dimension,
}

spec fn ids_distinct(s: Seq<Entry>) -> bool {
    forall|i: int, j: int|
        #![trigger s[i].id, s[j].id]
        0 <= i < j < s.len() ==> s[i].id != s[j].id
}

spec fn kinds_distinct(s: Seq<Entry>) -> bool {
    forall|i: int, j: int|
        #![trigger s[i].field.kind(), s[j].field.kind()]
        0 <= i < j < s.len() ==> s[i].field.kind() != s[j].field.kind()
}

spec fn has_id(s: Seq<Entry>, id: WidgetId) -> bool {
    exists|i: int| 0 <= i < s.len() && #[trigger] s[i].id == id
}

spec fn index_of(s: Seq<Entry>, id: WidgetId) -> int {
    choose|i: int| 0 <= i < s.len() && #[trigger] s[i].id == id
}

spec fn view_of(s: Seq<Entry>) -> Map<WidgetId, Dimension> {
    Map::new(|id: WidgetId| has_id(s, id), |id: WidgetId| s[index_of(s, id)].field)
}

/// Every registered field holds a value of at least 1, and there is at
/// least one. An empty registry is not valid.
pub open spec fn spec_all_valid(m: Map<WidgetId, Dimension>) -> bool {
    m != Map::<WidgetId, Dimension>::empty()
        && forall|id: WidgetId| #[trigger] m.contains_key(id) ==> m[id].value() >= 1
}

/// Some registered field carries the given kind.
pub open spec fn spec_has_kind(m: Map<WidgetId, Dimension>, k: DimensionKind) -> bool {
    exists|id: WidgetId| #[trigger] m.contains_key(id) && m[id].kind() == k
}

/// The value registered under the given kind, or 0 when no field carries it.
pub open spec fn spec_kind_value(m: Map<WidgetId, Dimension>, k: DimensionKind) -> u32 {
    if spec_has_kind(m, k) {
        m[choose|id: WidgetId| m.contains_key(id) && m[id].kind() == k].value()
    } else {
        0
    }
}

/// The current width, length and height values, in that order.
pub open spec fn spec_extract(m: Map<WidgetId, Dimension>) -> crate::grid::Dimensions {
    crate::grid::Dimensions {
        width: spec_kind_value(m, DimensionKind::Width),
        length: spec_kind_value(m, DimensionKind::Length),
        height: spec_kind_value(m, DimensionKind::Height),
    }
}

/// No two registered fields carry the same kind.
pub open spec fn at_most_one_per_kind(m: Map<WidgetId, Dimension>) -> bool {
    forall|a: WidgetId, b: WidgetId|
        m.contains_key(a) && m.contains_key(b) && #[trigger] m[a].kind() == #[trigger] m[b].kind()
            ==> a == b
}

/// A fresh field of a kind carries that kind and the value 0.
pub proof fn lemma_zero_of(kind: DimensionKind)
    ensures
        Dimension::zero_of(kind).kind() == kind,
        Dimension::zero_of(kind).value() == 0,
{
    match kind {
        DimensionKind::Length => {},
        DimensionKind::Width => {},
        DimensionKind::Height => {},
    }
}

/// Replacing a field's value keeps its kind and stores exactly `n`.
pub proof fn lemma_with_value(d: Dimension, n: u32)
    ensures
        d.with_value(n).kind() == d.kind(),
        d.with_value(n).value() == n,
{
    match d {
        Dimension::Length(_) => {},
        Dimension::Width(_) => {},
        Dimension::Height(_) => {},
    }
}

/// Storing a field's current value back leaves the field as it was.
pub proof fn lemma_with_value_unchanged(d: Dimension)
    ensures
        d.with_value(d.value()) == d,
{
    match d {
        Dimension::Length(_) => {},
        Dimension::Width(_) => {},
        Dimension::Height(_) => {},
    }
}

proof fn lemma_index_of(s: Seq<Entry>, i: int)
    requires
        ids_distinct(s),
        0 <= i < s.len(),
    ensures
        has_id(s, s[i].id),
        index_of(s, s[i].id) == i,
{
    assert(has_id(s, s[i].id));
    let j = index_of(s, s[i].id);
    assert(0 <= j < s.len() && s[j].id == s[i].id);
    if i < j {
        assert(s[i].id != s[j].id);
    } else if j < i {
        assert(s[j].id != s[i].id);
    }
}

proof fn lemma_view_push(s: Seq<Entry>, e: Entry)
    requires
        ids_distinct(s),
        !has_id(s, e.id),
    ensures
        ids_distinct(s.push(e)),
        view_of(s.push(e)) == view_of(s).insert(e.id, e.field),
{
    let t = s.push(e);
    assert forall|i: int, j: int|
        #![trigger t[i].id, t[j].id]
        0 <= i < j < t.len() implies t[i].id != t[j].id by {
        if j < s.len() {
            assert(s[i].id != s[j].id);
        } else {
            assert(t[j] == e);
            assert(t[i] == s[i]);
            if s[i].id == e.id {
                assert(has_id(s, e.id));
            }
        }
    }
    assert forall|k: WidgetId| #[trigger] has_id(t, k) implies k == e.id || has_id(s, k) by {
        let i = choose|i: int| 0 <= i < t.len() && #[trigger] t[i].id == k;
        if i < s.len() {
            assert(s[i].id == k);
        }
    }
    assert forall|k: WidgetId| #[trigger] has_id(s, k) implies has_id(t, k) by {
        let i = choose|i: int| 0 <= i < s.len() && #[trigger] s[i].id == k;
        assert(t[i].id == k);
    }
    assert(t[s.len() as int].id == e.id);
    assert(has_id(t, e.id));
    assert forall|k: WidgetId| #[trigger] has_id(t, k) implies view_of(t)[k] == (if k == e.id {
        e.field
    } else {
        view_of(s)[k]
    }) by {
        let i = index_of(t, k);
        assert(0 <= i < t.len() && t[i].id == k);
        if k == e.id {
            if i < s.len() {
                assert(s[i].id == e.id);
                assert(has_id(s, e.id));
            }
            assert(t[i].field == e.field);
        } else {
            assert(i < s.len());
            lemma_index_of(s, i);
            assert(view_of(s)[k] == s[i].field);
            assert(t[i].field == s[i].field);
        }
    }
    assert(view_of(t) =~= view_of(s).insert(e.id, e.field));
}

proof fn lemma_view_update(s: Seq<Entry>, i: int, e: Entry)
    requires
        ids_distinct(s),
        0 <= i < s.len(),
        e.id == s[i].id,
    ensures
        ids_distinct(s.update(i, e)),
        view_of(s.update(i, e)) == view_of(s).insert(e.id, e.field),
{
    let t = s.update(i, e);
    assert forall|a: int, b: int|
        #![trigger t[a].id, t[b].id]
        0 <= a < b < t.len() implies t[a].id != t[b].id by {
        assert(s[a].id != s[b].id);
        assert(t[a].id == s[a].id && t[b].id == s[b].id);
    }
    assert forall|k: WidgetId| #[trigger] has_id(t, k) implies has_id(s, k) by {
        let a = choose|a: int| 0 <= a < t.len() && #[trigger] t[a].id == k;
        assert(s[a].id == t[a].id);
    }
    assert forall|k: WidgetId| #[trigger] has_id(s, k) implies has_id(t, k) by {
        let a = choose|a: int| 0 <= a < s.len() && #[trigger] s[a].id == k;
        assert(t[a].id == s[a].id);
    }
    assert forall|k: WidgetId| #[trigger] has_id(t, k) implies view_of(t)[k] == (if k == e.id {
        e.field
    } else {
        view_of(s)[k]
    }) by {
        let a = index_of(t, k);
        assert(0 <= a < t.len() && t[a].id == k);
        lemma_index_of(t, a);
        if k == e.id {
            lemma_index_of(s, i);
            assert(t[i].id == e.id);
            if a != i {
                assert(t[a].id != t[i].id);
            }
            assert(t[a].field == e.field);
        } else {
            assert(a != i);
            assert(t[a] == s[a]);
            lemma_index_of(s, a);
            assert(view_of(s)[k] == s[a].field);
        }
    }
    assert(view_of(t) =~= view_of(s).insert(e.id, e.field));
}

/// The keyed store of dimension fields for the options screen.
pub struct FieldRegistry {
    entries: Vec<Entry>,
}

impl View for FieldRegistry {
    type V = Map<WidgetId, Dimension>;

    closed spec fn view(&self) -> Map<WidgetId, Dimension> {
        view_of(self.entries@)
    }
}

impl FieldRegistry {
    /// Internal well-formedness: no identity and no kind appears twice.
    /// Established by `new`, preserved by every method.
    pub closed spec fn wf(self) -> bool {
        ids_distinct(self.entries@) && kinds_distinct(self.entries@)
    }

    /// A registry never holds two fields of one kind.
    pub proof fn lemma_one_per_kind(self)
        requires
            self.wf(),
        ensures
            at_most_one_per_kind(self@),
    {
        let s = self.entries@;
        assert forall|a: WidgetId, b: WidgetId|
            self@.contains_key(a) && self@.contains_key(b)
                && #[trigger] self@[a].kind() == #[trigger] self@[b].kind() implies a == b by {
            let i = index_of(s, a);
            let j = index_of(s, b);
            assert(0 <= i < s.len() && s[i].id == a);
            assert(0 <= j < s.len() && s[j].id == b);
            if i < j {
                assert(s[i].field.kind() != s[j].field.kind());
            } else if j < i {
                assert(s[j].field.kind() != s[i].field.kind());
            }
        }
    }

    pub fn new() -> (r: FieldRegistry)
        ensures
            r.wf(),
            r@ == Map::<WidgetId, Dimension>::empty(),
    {
        let r = FieldRegistry { entries: Vec::new() };
        proof {
            assert(r@ =~= Map::<WidgetId, Dimension>::empty());
        }
        r
    }

    /// The field registered under `id`, if any.
    pub fn get(&self, id: WidgetId) -> (r: Option<Dimension>)
        requires
            self.wf(),
        ensures
            r == (if self@.contains_key(id) {
                Some(self@[id])
            } else {
                None::<Dimension>
            }),
    {
        let n = self.entries.len();
        let mut i: usize = 0;
        while i < n
            invariant
                self.wf(),
                i <= n,
                n == self.entries@.len(),
                forall|j: int| 0 <= j < i ==> #[trigger] self.entries@[j].id != id,
            decreases n - i,
        {
            if self.entries[i].id == id {
                proof {
                    lemma_index_of(self.entries@, i as int);
                }
                return Some(self.entries[i].field);
            }
            i = i + 1;
        }
        None
    }

    /// Inserts a fresh field of the given kind, valued 0, under `id`.
    /// Refused — with the registry left unchanged — when the identity or the
    /// kind is already registered.
    pub fn register(&mut self, id: WidgetId, kind: DimensionKind) -> (r: Result<
        (),
        RegistryError,
    >)
        requires
            old(self).wf(),
        ensures
            final(self).wf(),
            match r {
                Ok(()) => !old(self)@.contains_key(id) && !spec_has_kind(old(self)@, kind)
                    && final(self)@ == old(self)@.insert(id, Dimension::zero_of(kind)),
                Err(RegistryError::DuplicateWidget) => old(self)@.contains_key(id) && final(self)@
                    == old(self)@,
                Err(RegistryError::DuplicateKind) => !old(self)@.contains_key(id)
                    && spec_has_kind(old(self)@, kind) && final(self)@ == old(self)@,
                Err(RegistryError::UnknownWidget) => false,
            },
    {
        let ghost s = self.entries@;
        let n = self.entries.len();
        let mut i: usize = 0;
        while i < n
            invariant
                self.wf(),
                s == self.entries@,
                i <= n,
                n == s.len(),
                forall|j: int| 0 <= j < i ==> #[trigger] s[j].id != id,
            decreases n - i,
        {
            if self.entries[i].id == id {
                proof {
                    lemma_index_of(s, i as int);
                }
                return Err(RegistryError::DuplicateWidget);
            }
            i = i + 1;
        }
        proof {
            if has_id(s, id) {
                let j = index_of(s, id);
                assert(0 <= j < s.len() && s[j].id == id);
            }
        }
        let mut i: usize = 0;
        while i < n
            invariant
                self.wf(),
                s == self.entries@,
                i <= n,
                n == s.len(),
                !has_id(s, id),
                forall|j: int| 0 <= j < i ==> #[trigger] s[j].field.kind() != kind,
            decreases n - i,
        {
            if self.entries[i].field.get_kind() == kind {
                proof {
                    lemma_index_of(s, i as int);
                    assert(self@.contains_key(s[i as int].id) && self@[s[i as int].id].kind()
                        == kind);
                }
                return Err(RegistryError::DuplicateKind);
            }
            i = i + 1;
        }
        proof {
            if spec_has_kind(view_of(s), kind) {
                let w = choose|w: WidgetId|
                    view_of(s).contains_key(w) && view_of(s)[w].kind() == kind;
                let j = index_of(s, w);
                assert(0 <= j < s.len() && s[j].id == w);
            }
        }
        let e = Entry { id, field: Dimension::zero_field(kind) };
        proof {
            lemma_zero_of(kind);
            lemma_view_push(s, e);
            assert forall|a: int, b: int|
                #![trigger s.push(e)[a].field.kind(), s.push(e)[b].field.kind()]
                0 <= a < b < s.push(e).len() implies s.push(e)[a].field.kind() != s.push(
                e,
            )[b].field.kind() by {
                if b < s.len() {
                    assert(s[a].field.kind() != s[b].field.kind());
                } else {
                    assert(s.push(e)[a] == s[a]);
                    assert(s.push(e)[b] == e);
                    assert(s[a].field.kind() != kind);
                }
            }
        }
        self.entries.push(e);
        Ok(())
    }

    /// Parses `text` and stores the result (0 on parse failure) under `id`,
    /// preserving the field's kind. Reports `UnknownWidget` — with the
    /// registry left unchanged — when `id` was never registered.
    pub fn update(&mut self, id: WidgetId, text: &str) -> (r: Result<(), RegistryError>)
        requires
            old(self).wf(),
        ensures
            final(self).wf(),
            match r {
                Ok(()) => old(self)@.contains_key(id) && final(self)@ == old(self)@.insert(
                    id,
                    old(self)@[id].with_value(parse_or_zero(text@)),
                ),
                Err(RegistryError::UnknownWidget) => !old(self)@.contains_key(id) && final(self)@
                    == old(self)@,
                _ => false,
            },
    {
        let ghost s = self.entries@;
        let n = self.entries.len();
        let mut i: usize = 0;
        while i < n
            invariant
                self.wf(),
                s == self.entries@,
                s == old(self).entries@,
                i <= n,
                n == s.len(),
                forall|j: int| 0 <= j < i ==> #[trigger] s[j].id != id,
            decreases n - i,
        {
            if self.entries[i].id == id {
                let v: u32 = match crate::parse::parse_u32(text) {
                    Some(v) => v,
                    None => 0,
                };
                assert(v == parse_or_zero(text@));
                let e = Entry { id, field: self.entries[i].field.replace_value(v) };
                proof {
                    lemma_index_of(s, i as int);
                    assert(self@[id] == s[i as int].field);
                    lemma_with_value(s[i as int].field, v);
                    lemma_view_update(s, i as int, e);
                    assert forall|a: int, b: int|
                        #![trigger s.update(i as int, e)[a].field.kind(), s.update(i as int, e)[b].field.kind()]
                        0 <= a < b < s.update(i as int, e).len() implies s.update(
                        i as int,
                        e,
                    )[a].field.kind() != s.update(i as int, e)[b].field.kind() by {
                        assert(s[a].field.kind() != s[b].field.kind());
                        assert(s.update(i as int, e)[a].field.kind() == s[a].field.kind());
                        assert(s.update(i as int, e)[b].field.kind() == s[b].field.kind());
                    }
                }
                self.entries.set(i, e);
                return Ok(());
            }
            i = i + 1;
        }
        proof {
            if has_id(s, id) {
                let j = index_of(s, id);
                assert(0 <= j < s.len() && s[j].id == id);
            }
        }
        Err(RegistryError::UnknownWidget)
    }

    /// True exactly when the registry is non-empty and every registered
    /// field holds a value of at least 1.
    pub fn all_valid(&self) -> (r: bool)
        requires
            self.wf(),
        ensures
            r == spec_all_valid(self@),
    {
        let ghost s = self.entries@;
        let n = self.entries.len();
        if n == 0 {
            proof {
                assert(self@ =~= Map::<WidgetId, Dimension>::empty());
            }
            return false;
        }
        let mut i: usize = 0;
        while i < n
            invariant
                self.wf(),
                s == self.entries@,
                i <= n,
                n == s.len(),
                forall|j: int| 0 <= j < i ==> #[trigger] s[j].field.value() >= 1,
            decreases n - i,
        {
            if self.entries[i].field.get_value() < 1 {
                proof {
                    lemma_index_of(s, i as int);
                    assert(self@.contains_key(s[i as int].id));
                    assert(self@[s[i as int].id].value() < 1);
                }
                return false;
            }
            i = i + 1;
        }
        proof {
            assert forall|id: WidgetId| #[trigger] self@.contains_key(id) implies self@[id].value()
                >= 1 by {
                let j = index_of(s, id);
                assert(0 <= j < s.len() && s[j].id == id);
            }
            lemma_index_of(s, 0);
            assert(self@.contains_key(s[0].id));
            assert(!Map::<WidgetId, Dimension>::empty().contains_key(s[0].id));
        }
        true
    }

    /// The current width, length and height values, in that order; 0 for a
    /// kind with no registered field. Meaningful once `all_valid` is true.
    pub fn extract(&self) -> (r: crate::grid::Dimensions)
        requires
            self.wf(),
        ensures
            r == spec_extract(self@),
    {
        let ghost s = self.entries@;
        let n = self.entries.len();
        let mut width: u32 = 0;
        let mut length: u32 = 0;
        let mut height: u32 = 0;
        let mut i: usize = 0;
        while i < n
            invariant
                self.wf(),
                s == self.entries@,
                i <= n,
                n == s.len(),
                forall|j: int|
                    0 <= j < i && #[trigger] s[j].field.kind() == DimensionKind::Width ==> width
                        == s[j].field.value(),
                forall|j: int|
                    0 <= j < i && #[trigger] s[j].field.kind() == DimensionKind::Length ==> length
                        == s[j].field.value(),
                forall|j: int|
                    0 <= j < i && #[trigger] s[j].field.kind() == DimensionKind::Height ==> height
                        == s[j].field.value(),
                (exists|j: int| 0 <= j < i && #[trigger] s[j].field.kind() == DimensionKind::Width)
                    || width == 0,
                (exists|j: int| 0 <= j < i && #[trigger] s[j].field.kind() == DimensionKind::Length)
                    || length == 0,
                (exists|j: int| 0 <= j < i && #[trigger] s[j].field.kind() == DimensionKind::Height)
                    || height == 0,
            decreases n - i,
        {
            match self.entries[i].field {
                Dimension::Width(v) => {
                    proof {
                        assert(s[i as int].field.kind() == DimensionKind::Width);
                        assert forall|j: int|
                            0 <= j < i implies #[trigger] s[j].field.kind()
                            != DimensionKind::Width by {
                            assert(s[j].field.kind() != s[i as int].field.kind());
                        }
                    }
                    width = v;
                },
                Dimension::Length(v) => {
                    proof {
                        assert(s[i as int].field.kind() == DimensionKind::Length);
                        assert forall|j: int|
                            0 <= j < i implies #[trigger] s[j].field.kind()
                            != DimensionKind::Length by {
                            assert(s[j].field.kind() != s[i as int].field.kind());
                        }
                    }
                    length = v;
                },
                Dimension::Height(v) => {
                    proof {
                        assert(s[i as int].field.kind() == DimensionKind::Height);
                        assert forall|j: int|
                            0 <= j < i implies #[trigger] s[j].field.kind()
                            != DimensionKind::Height by {
                            assert(s[j].field.kind() != s[i as int].field.kind());
                        }
                    }
                    height = v;
                },
            }
            i = i + 1;
        }
        proof {
            lemma_extract_matches(s, DimensionKind::Width, width);
            lemma_extract_matches(s, DimensionKind::Length, length);
            lemma_extract_matches(s, DimensionKind::Height, height);
        }
        crate::grid::Dimensions { width, length, height }
    }

    /// Removes every entry. Invoked whenever the options screen is rebuilt
    /// or torn down, so stale entries never survive a revisit.
    pub fn clear(&mut self)
        requires
            old(self).wf(),
        ensures
            final(self).wf(),
            final(self)@ == Map::<WidgetId, Dimension>::empty(),
    {
        self.entries.clear();
        proof {
            assert(self@ =~= Map::<WidgetId, Dimension>::empty());
        }
    }
}

/// Connects the scan result for one kind to `spec_kind_value`.
proof fn lemma_extract_matches(s: Seq<Entry>, k: DimensionKind, got: u32)
    requires
        ids_distinct(s),
        forall|j: int| 0 <= j < s.len() && #[trigger] s[j].field.kind() == k ==> got == s[j].field.value(),
        (exists|j: int| 0 <= j < s.len() && #[trigger] s[j].field.kind() == k) || got == 0,
    ensures
        got == spec_kind_value(view_of(s), k),
{
    let m = view_of(s);
    if spec_has_kind(m, k) {
        let id = choose|id: WidgetId| m.contains_key(id) && m[id].kind() == k;
        let j = index_of(s, id);
        assert(0 <= j < s.len() && s[j].id == id);
        assert(m[id] == s[j].field);
        assert(got == s[j].field.value());
    } else {
        if exists|j: int| 0 <= j < s.len() && #[trigger] s[j].field.kind() == k {
            let j = choose|j: int| 0 <= j < s.len() && #[trigger] s[j].field.kind() == k;
            lemma_index_of(s, j);
            assert(m.contains_key(s[j].id) && m[s[j].id].kind() == k);
        }
    }
}

} // verus!
