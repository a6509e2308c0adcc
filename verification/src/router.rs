//! The submission router: bridges individual field submissions to the
//! all-or-nothing generation trigger.
//!
//! Every submission updates the registry; when all three fields are valid
//! afterwards, the router extracts the dimensions, builds the grid and emits
//! exactly one `GenerateMapEvent`. A dispatched flag, cleared only by a field
//! change or a registry reset, keeps one completed input set from ever
//! producing two events.

use crate::grid::{GenerateMapEvent, GridMap, grid_tiles};
use crate::parse::{is_valid_number, parse_or_zero};
use crate::registry::{
    Dimension, DimensionKind, FieldRegistry, RegistryError, WidgetId, lemma_with_value,
    lemma_with_value_unchanged, lemma_zero_of, spec_all_valid, spec_extract, spec_has_kind,
};
use vstd::prelude::*;

verus! {

/// The registry contents after one submission of `text` to `id`: the field
/// keeps its kind and takes the parsed value (0 on parse failure); an
/// unknown identity changes nothing.
pub open spec fn step_fields(
    m: Map<WidgetId, Dimension>,
    id: WidgetId,
    text: Seq<char>,
) -> Map<WidgetId, Dimension> {
    if m.contains_key(id) {
        m.insert(id, m[id].with_value(parse_or_zero(text)))
    } else {
        m
    }
}

/// Whether the submission changes the stored value of its field.
pub open spec fn step_changes(m: Map<WidgetId, Dimension>, id: WidgetId, text: Seq<char>) -> bool {
    m.contains_key(id) && m[id].value() != parse_or_zero(text)
}

/// Whether the submission fires a generation request: the identity is
/// known, every field is valid afterwards, and the trigger is not still
/// dispatched from an earlier completion of the same values.
pub open spec fn step_fires(
    m: Map<WidgetId, Dimension>,
    dispatched: bool,
    id: WidgetId,
    text: Seq<char>,
) -> bool {
    m.contains_key(id) && spec_all_valid(step_fields(m, id, text)) && !(dispatched
        && !step_changes(m, id, text))
}

/// The dispatched flag after the submission: set by a fire, kept over a
/// same-value resubmission, cleared by a value change that does not fire.
pub open spec fn step_dispatched(
    m: Map<WidgetId, Dimension>,
    dispatched: bool,
    id: WidgetId,
    text: Seq<char>,
) -> bool {
    if m.contains_key(id) {
        step_fires(m, dispatched, id, text) || (dispatched && !step_changes(m, id, text))
    } else {
        dispatched
    }
}

/// Consumes raw-text submissions, keeps the field registry current, and
/// emits one generation request per completed input set.
pub struct SubmissionRouter {
    registry: FieldRegistry,
    dispatched: bool,
}

impl SubmissionRouter {
    /// The registered fields, as the registry's map.
    pub closed spec fn fields(self) -> Map<WidgetId, Dimension> {
        self.registry@
    }

    /// Whether a request has been dispatched for the current values.
    pub closed spec fn spec_dispatched(self) -> bool {
        self.dispatched
    }

    pub closed spec fn wf(self) -> bool {
        self.registry.wf()
    }

    pub fn new() -> (r: SubmissionRouter)
        ensures
            r.wf(),
            r.fields() == Map::<WidgetId, Dimension>::empty(),
            !r.spec_dispatched(),
    {
        SubmissionRouter { registry: FieldRegistry::new(), dispatched: false }
    }

    /// Registers a fresh field; see `FieldRegistry::register`.
    pub fn register(&mut self, id: WidgetId, kind: DimensionKind) -> (r: Result<
        (),
        RegistryError,
    >)
        requires
            old(self).wf(),
        ensures
            final(self).wf(),
            final(self).spec_dispatched() == old(self).spec_dispatched(),
            match r {
                Ok(()) => !old(self).fields().contains_key(id) && !spec_has_kind(
                    old(self).fields(),
                    kind,
                ) && final(self).fields() == old(self).fields().insert(
                    id,
                    Dimension::zero_of(kind),
                ),
                Err(RegistryError::DuplicateWidget) => old(self).fields().contains_key(id)
                    && final(self).fields() == old(self).fields(),
                Err(RegistryError::DuplicateKind) => !old(self).fields().contains_key(id)
                    && spec_has_kind(old(self).fields(), kind) && final(self).fields() == old(
                    self,
                ).fields(),
                Err(RegistryError::UnknownWidget) => false,
            },
    {
        self.registry.register(id, kind)
    }

    /// Empties the registry and re-arms the trigger; invoked when the
    /// options screen is rebuilt or torn down.
    pub fn clear(&mut self)
        requires
            old(self).wf(),
        ensures
            final(self).wf(),
            final(self).fields() == Map::<WidgetId, Dimension>::empty(),
            !final(self).spec_dispatched(),
    {
        self.registry.clear();
        self.dispatched = false;
    }

    /// True exactly when the registry is non-empty and every field is valid.
    pub fn all_valid(&self) -> (r: bool)
        requires
            self.wf(),
        ensures
            r == spec_all_valid(self.fields()),
    {
        self.registry.all_valid()
    }

    /// The field registered under `id`, if any.
    pub fn get(&self, id: WidgetId) -> (r: Option<Dimension>)
        requires
            self.wf(),
        ensures
            r == (if self.fields().contains_key(id) {
                Some(self.fields()[id])
            } else {
                None::<Dimension>
            }),
    {
        self.registry.get(id)
    }

    /// Handles one submission notification. An unknown identity is reported
    /// and changes nothing. Otherwise the field takes the parsed value, and
    /// when that completes the input set — all fields valid, and not already
    /// dispatched for these values — the grid for the extracted dimensions
    /// is built and returned as exactly one `GenerateMapEvent`.
    pub fn handle_submission(&mut self, id: WidgetId, text: &str) -> (r: Result<
        Option<GenerateMapEvent>,
        RegistryError,
    >)
        requires
            old(self).wf(),
        ensures
            final(self).wf(),
            final(self).fields() == step_fields(old(self).fields(), id, text@),
            final(self).spec_dispatched() == step_dispatched(
                old(self).fields(),
                old(self).spec_dispatched(),
                id,
                text@,
            ),
            match r {
                Ok(opt) => old(self).fields().contains_key(id) && match opt {
                    Some(ev) => step_fires(old(self).fields(), old(self).spec_dispatched(), id, text@)
                        && ({
                        let dims = spec_extract(step_fields(old(self).fields(), id, text@));
                        ev.0.dimensions == dims && ev.0.nodes@ == grid_tiles(
                            dims.width as int,
                            dims.length as int,
                            dims.height as int,
                        )
                    }),
                    None => !step_fires(old(self).fields(), old(self).spec_dispatched(), id, text@),
                },
                Err(e) => e == RegistryError::UnknownWidget && !old(self).fields().contains_key(id)
                    && *final(self) == *old(self),
            },
    {
        let prev = match self.registry.get(id) {
            Some(f) => f,
            None => {
                return Err(RegistryError::UnknownWidget);
            },
        };
        let parsed: u32 = match crate::parse::parse_u32(text) {
            Some(v) => v,
            None => 0,
        };
        assert(parsed == parse_or_zero(text@));
        let changed = parsed != prev.get_value();
        let res = self.registry.update(id, text);
        if res.is_err() {
            // Unreachable: the identity was just found, so the update
            // cannot report it unknown.
            proof {
                assert(false);
            }
            return Err(RegistryError::UnknownWidget);
        }
        let valid = self.registry.all_valid();
        let still_dispatched = self.dispatched && !changed;
        if valid && !still_dispatched {
            let dims = self.registry.extract();
            let map = GridMap::builder().width(dims.width).length(dims.length).height(
                dims.height,
            ).build();
            self.dispatched = true;
            Ok(Some(GenerateMapEvent(map)))
        } else {
            self.dispatched = still_dispatched;
            Ok(None)
        }
    }
}

/// Law: with three freshly registered fields, one per kind, raising two of
/// them to valid values fires nothing, and raising the third then fires.
pub proof fn lemma_third_valid_submission_fires(
    a: WidgetId,
    b: WidgetId,
    c: WidgetId,
    ka: DimensionKind,
    kb: DimensionKind,
    kc: DimensionKind,
    ta: Seq<char>,
    tb: Seq<char>,
    tc: Seq<char>,
)
    requires
        a != b && a != c && b != c,
        ka != kb && ka != kc && kb != kc,
        parse_or_zero(ta) >= 1,
        parse_or_zero(tb) >= 1,
        parse_or_zero(tc) >= 1,
    ensures
        ({
            let m0 = Map::<WidgetId, Dimension>::empty().insert(a, Dimension::zero_of(ka)).insert(
                b,
                Dimension::zero_of(kb),
            ).insert(c, Dimension::zero_of(kc));
            let d0 = false;
            let m1 = step_fields(m0, a, ta);
            let d1 = step_dispatched(m0, d0, a, ta);
            let m2 = step_fields(m1, b, tb);
            let d2 = step_dispatched(m1, d1, b, tb);
            &&& !step_fires(m0, d0, a, ta)
            &&& !step_fires(m1, d1, b, tb)
            &&& step_fires(m2, d2, c, tc)
            &&& step_dispatched(m2, d2, c, tc)
        }),
{
    let m0 = Map::<WidgetId, Dimension>::empty().insert(a, Dimension::zero_of(ka)).insert(
        b,
        Dimension::zero_of(kb),
    ).insert(c, Dimension::zero_of(kc));
    let m1 = step_fields(m0, a, ta);
    let m2 = step_fields(m1, b, tb);
    let m3 = step_fields(m2, c, tc);
    lemma_zero_of(ka);
    lemma_zero_of(kb);
    lemma_zero_of(kc);
    lemma_with_value(m0[a], parse_or_zero(ta));
    assert(m1.contains_key(b) && m1[b].value() == 0);
    assert(!spec_all_valid(m1));
    lemma_with_value(m1[b], parse_or_zero(tb));
    assert(m2.contains_key(c) && m2[c].value() == 0);
    assert(!spec_all_valid(m2));
    lemma_with_value(m2[c], parse_or_zero(tc));
    assert(spec_all_valid(m3)) by {
        assert forall|id: WidgetId| #[trigger] m3.contains_key(id) implies m3[id].value()
            >= 1 by {
            assert(id == a || id == b || id == c);
        }
        assert(m3.contains_key(a));
        assert(!Map::<WidgetId, Dimension>::empty().contains_key(a));
    }
}

/// Law: a submission that leaves (or puts) a zero value in some field
/// cannot fire the trigger, whatever the other fields hold.
pub proof fn lemma_zero_field_blocks_fire(
    m: Map<WidgetId, Dimension>,
    dispatched: bool,
    id: WidgetId,
    text: Seq<char>,
    blocked: WidgetId,
)
    requires
        step_fields(m, id, text).contains_key(blocked),
        step_fields(m, id, text)[blocked].value() == 0,
    ensures
        !spec_all_valid(step_fields(m, id, text)),
        !step_fires(m, dispatched, id, text),
{
}

/// Law: a submission whose text is not a valid number sets its field to 0,
/// leaves the registry invalid, and cannot fire, whatever the other two
/// fields hold.
pub proof fn lemma_invalid_text_blocks_fire(
    m: Map<WidgetId, Dimension>,
    dispatched: bool,
    id: WidgetId,
    text: Seq<char>,
)
    requires
        m.contains_key(id),
        !is_valid_number(text),
    ensures
        step_fields(m, id, text)[id].value() == 0,
        !spec_all_valid(step_fields(m, id, text)),
        !step_fires(m, dispatched, id, text),
{
    lemma_with_value(m[id], parse_or_zero(text));
    lemma_zero_field_blocks_fire(m, dispatched, id, text, id);
}

/// Law: once the trigger has been dispatched, re-submitting a field's
/// current value changes nothing and fires nothing; only a field change or
/// a registry reset re-arms it.
pub proof fn lemma_resubmission_without_change_is_quiet(
    m: Map<WidgetId, Dimension>,
    id: WidgetId,
    text: Seq<char>,
)
    requires
        m.contains_key(id),
        parse_or_zero(text) == m[id].value(),
    ensures
        step_fields(m, id, text) == m,
        !step_fires(m, true, id, text),
        step_dispatched(m, true, id, text),
{
    lemma_with_value_unchanged(m[id]);
    assert(m.insert(id, m[id]) =~= m);
}

} // verus!
