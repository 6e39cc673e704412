//! The versioned state of every template: what was last materialised, the
//! history before it, and the rule that decides when a candidate replaces it.

use vstd::prelude::*;
use crate::clock::now_text;
use crate::document::Document;
use crate::document::Tree;

verus! {

/// A named partial document that is merged on top of a template's base.
#[derive(Debug, Clone, PartialEq, Eq)]
pub struct Overlay {
    pub name: String,
    pub values: Document,
}

/// One snapshot of a template: its values, overlays and schema, and its
/// number in the history.
#[derive(Debug, Clone, PartialEq, Eq)]
pub struct VersionedTemplate {
    pub values: Document,
    pub version: u64,
    pub overlays: Vec<Overlay>,
    pub schema: Document,
    pub created: String,
}

/// A materialised variant of a template.
#[derive(Debug, Clone, PartialEq, Eq)]
pub struct Implementation {
    pub name: String,
    pub version: String,
    pub overlays: Vec<String>,
    pub overlay: Document,
    pub created: String,
}

/// A template as the tracker knows it: the current snapshot and every
/// snapshot that it replaced, oldest first.
#[derive(Debug, Clone, PartialEq, Eq)]
pub struct TemplateState {
    pub name: String,
    pub current: VersionedTemplate,
    pub previous_versions: Vec<VersionedTemplate>,
    pub created: String,
    pub updated: String,
    pub implementations: Vec<Implementation>,
}

/// All templates of one project.
#[derive(Debug, Clone, PartialEq, Eq)]
pub struct CometState {
    pub name: String,
    pub templates: Vec<TemplateState>,
    pub created: String,
    pub updated: String,
}

/// What one sync finds of a template: its name, its base document, its
/// schema and its overlays in order.
#[derive(Debug, Clone, PartialEq, Eq)]
pub struct TemplateSource {
    pub name: String,
    pub base: Document,
    pub schema: Document,
    pub overlays: Vec<Overlay>,
}

/// The mathematical value of an [`Overlay`].
pub struct OverlayView {
    pub name: Seq<char>,
    pub values: Tree,
}

/// The mathematical value of a [`VersionedTemplate`].
pub struct VersionView {
    pub values: Tree,
    pub version: nat,
    pub overlays: Seq<OverlayView>,
    pub schema: Tree,
    pub created: Seq<char>,
}

/// The mathematical value of an [`Implementation`].
pub struct ImplementationView {
    pub name: Seq<char>,
    pub version: Seq<char>,
    pub overlays: Seq<Seq<char>>,
    pub overlay: Tree,
    pub created: Seq<char>,
}

/// The mathematical value of a [`TemplateState`].
pub struct TemplateView {
    pub name: Seq<char>,
    pub current: VersionView,
    pub previous_versions: Seq<VersionView>,
    pub created: Seq<char>,
    pub updated: Seq<char>,
    pub implementations: Seq<ImplementationView>,
}

/// The mathematical value of a [`CometState`].
pub struct StateView {
    pub name: Seq<char>,
    pub templates: Seq<TemplateView>,
    pub created: Seq<char>,
    pub updated: Seq<char>,
}

/// The mathematical value of a [`TemplateSource`].
pub struct SourceView {
    pub name: Seq<char>,
    pub base: Tree,
    pub schema: Tree,
    pub overlays: Seq<OverlayView>,
}

impl View for Overlay {
    type V = OverlayView;

    open spec fn view(&self) -> OverlayView {
        OverlayView { name: self.name@, values: self.values@ }
    }
}

/// The mathematical values of a list of overlays.
pub open spec fn overlays_view(overlays: Seq<Overlay>) -> Seq<OverlayView> {
    Seq::new(overlays.len(), |i: int| overlays[i]@)
}

impl View for VersionedTemplate {
    type V = VersionView;

    open spec fn view(&self) -> VersionView {
        VersionView {
            values: self.values@,
            version: self.version as nat,
            overlays: overlays_view(self.overlays@),
            schema: self.schema@,
            created: self.created@,
        }
    }
}

/// The mathematical values of a list of snapshots.
pub open spec fn versions_view(versions: Seq<VersionedTemplate>) -> Seq<VersionView> {
    Seq::new(versions.len(), |i: int| versions[i]@)
}

impl View for Implementation {
    type V = ImplementationView;

    open spec fn view(&self) -> ImplementationView {
        ImplementationView {
            name: self.name@,
            version: self.version@,
            overlays: Seq::new(self.overlays@.len(), |i: int| self.overlays@[i]@),
            overlay: self.overlay@,
            created: self.created@,
        }
    }
}

impl View for TemplateState {
    type V = TemplateView;

    open spec fn view(&self) -> TemplateView {
        TemplateView {
            name: self.name@,
            current: self.current@,
            previous_versions: versions_view(self.previous_versions@),
            created: self.created@,
            updated: self.updated@,
            implementations: Seq::new(
                self.implementations@.len(),
                |i: int| self.implementations@[i]@,
            ),
        }
    }
}

/// The mathematical values of a list of templates.
pub open spec fn templates_view(templates: Seq<TemplateState>) -> Seq<TemplateView> {
    Seq::new(templates.len(), |i: int| templates[i]@)
}

impl View for CometState {
    type V = StateView;

    open spec fn view(&self) -> StateView {
        StateView {
            name: self.name@,
            templates: templates_view(self.templates@),
            created: self.created@,
            updated: self.updated@,
        }
    }
}

impl View for TemplateSource {
    type V = SourceView;

    open spec fn view(&self) -> SourceView {
        SourceView {
            name: self.name@,
            base: self.base@,
            schema: self.schema@,
            overlays: overlays_view(self.overlays@),
        }
    }
}

/// The mathematical values of a list of sources.
pub open spec fn sources_view(sources: Seq<TemplateSource>) -> Seq<SourceView> {
    Seq::new(sources.len(), |i: int| sources[i]@)
}

/// Whether two lists of overlays have the same length and, index by index,
/// the same values. The names of the overlays are not looked at.
pub open spec fn overlays_alike(current: Seq<OverlayView>, candidate: Seq<OverlayView>) -> bool {
    &&& current.len() == candidate.len()
    &&& forall|i: int|
        0 <= i < current.len() ==> (#[trigger] current[i]).values == candidate[i].values
}

impl TemplateView {
    /// A template that was seen for the first time at `now`.
    pub open spec fn fresh(
        name: Seq<char>,
        values: Tree,
        overlays: Seq<OverlayView>,
        schema: Tree,
        now: Seq<char>,
    ) -> TemplateView {
        TemplateView {
            name,
            current: VersionView { values, version: 0, overlays, schema, created: now },
            previous_versions: Seq::empty(),
            created: now,
            updated: now,
            implementations: Seq::empty(),
        }
    }

    /// The history is numbered from zero without gaps, and the current
    /// snapshot has the next number.
    pub open spec fn wf(self) -> bool {
        &&& self.previous_versions.len() == self.current.version
        &&& forall|i: int|
            0 <= i < self.previous_versions.len() ==> (#[trigger] self.previous_versions[i]).version
                == i
    }

    /// The rule by which a candidate replaces the current snapshot: the
    /// values differ, the schema differs, and the overlays are alike. All
    /// three must hold.
    pub open spec fn has_changed(self, candidate: TemplateView) -> bool {
        &&& self.current.values != candidate.current.values
        &&& self.current.schema != candidate.current.schema
        &&& overlays_alike(self.current.overlays, candidate.current.overlays)
    }

    /// This template after `candidate` replaced its current snapshot at
    /// `now`: the old snapshot is the last of the history, and the new one
    /// has the next number.
    pub open spec fn replaced_by(self, candidate: TemplateView, now: Seq<char>) -> TemplateView {
        TemplateView {
            current: VersionView {
                values: candidate.current.values,
                version: self.current.version + 1,
                overlays: candidate.current.overlays,
                schema: candidate.current.schema,
                created: now,
            },
            previous_versions: self.previous_versions.push(self.current),
            ..self
        }
    }
}

/// The first position at or after `from` of a template named `name`.
pub open spec fn name_index_from(templates: Seq<TemplateView>, name: Seq<char>, from: int) -> Option<
    int,
>
    decreases templates.len() - from,
{
    if from < 0 || from >= templates.len() {
        None
    } else if templates[from].name == name {
        Some(from)
    } else {
        name_index_from(templates, name, from + 1)
    }
}

/// The first position of a template named `name`.
pub open spec fn name_index(templates: Seq<TemplateView>, name: Seq<char>) -> Option<int> {
    name_index_from(templates, name, 0)
}

/// Whether `candidate` changes `templates`: its name is new, or the
/// template of its name has changed.
pub open spec fn candidate_counts(templates: Seq<TemplateView>, candidate: TemplateView) -> bool {
    match name_index(templates, candidate.name) {
        Some(i) => templates[i].has_changed(candidate),
        None => true,
    }
}

/// `templates` after one candidate was looked at, at `now`: a new name is
/// added as it is, a template that has changed is replaced, and any other
/// is left alone.
pub open spec fn after_candidate(
    templates: Seq<TemplateView>,
    candidate: TemplateView,
    now: Seq<char>,
) -> Seq<TemplateView> {
    match name_index(templates, candidate.name) {
        Some(i) => if templates[i].has_changed(candidate) {
            templates.update(i, templates[i].replaced_by(candidate, now))
        } else {
            templates
        },
        None => templates.push(candidate),
    }
}

/// `templates` after each of `candidates` was looked at, in order.
pub open spec fn after_candidates(
    templates: Seq<TemplateView>,
    candidates: Seq<TemplateView>,
    now: Seq<char>,
) -> Seq<TemplateView>
    decreases candidates.len(),
{
    if candidates.len() == 0 {
        templates
    } else {
        after_candidate(
            after_candidates(templates, candidates.drop_last(), now),
            candidates.last(),
            now,
        )
    }
}

/// Whether any of `candidates` changed the templates when its turn came.
pub open spec fn any_counts(
    templates: Seq<TemplateView>,
    candidates: Seq<TemplateView>,
    now: Seq<char>,
) -> bool
    decreases candidates.len(),
{
    if candidates.len() == 0 {
        false
    } else {
        any_counts(templates, candidates.drop_last(), now) || candidate_counts(
            after_candidates(templates, candidates.drop_last(), now),
            candidates.last(),
        )
    }
}

impl StateView {
    /// Every template is well formed.
    pub open spec fn wf(self) -> bool {
        forall|i: int| 0 <= i < self.templates.len() ==> (#[trigger] self.templates[i]).wf()
    }

    /// The state after `candidates` were looked at, at `now`. The state is
    /// stamped `now` if one of them changed it, and keeps its stamp if none
    /// did.
    pub open spec fn updated_with(self, candidates: Seq<TemplateView>, now: Seq<char>) -> StateView {
        StateView {
            templates: after_candidates(self.templates, candidates, now),
            updated: if any_counts(self.templates, candidates, now) {
                now
            } else {
                self.updated
            },
            ..self
        }
    }
}

/// The candidates that a sync at `now` makes of what it found: for each
/// source a template at version 0.
pub open spec fn candidates_of(sources: Seq<SourceView>, now: Seq<char>) -> Seq<TemplateView> {
    Seq::new(
        sources.len(),
        |i: int|
            TemplateView::fresh(
                sources[i].name,
                sources[i].base,
                sources[i].overlays,
                sources[i].schema,
                now,
            ),
    )
}

impl Overlay {
    /// An overlay of the given name and values.
    pub fn new(name: &str, values: Document) -> (overlay: Overlay)
        ensures
            overlay@ == (OverlayView { name: name@, values: values@ }),
    {
        Overlay { name: name.to_owned(), values }
    }
}

impl TemplateState {
    /// A template seen for the first time now: version 0, no history.
    pub fn new(name: &str, values: Document, overlays: Vec<Overlay>, schema: Document) -> (state:
        TemplateState)
        ensures
            state@ == TemplateView::fresh(
                name@,
                values@,
                overlays_view(overlays@),
                schema@,
                state@.created,
            ),
            state@.wf(),
    {
        TemplateState::new_at(name, values, overlays, schema, now_text())
    }

    /// A template seen for the first time at `now`: version 0, no history.
    pub fn new_at(
        name: &str,
        values: Document,
        overlays: Vec<Overlay>,
        schema: Document,
        now: String,
    ) -> (state: TemplateState)
        ensures
            state@ == TemplateView::fresh(name@, values@, overlays_view(overlays@), schema@, now@),
            state@.wf(),
    {
        let current = VersionedTemplate {
            version: 0,
            values,
            overlays,
            schema,
            created: now.clone(),
        };
        let state = TemplateState {
            name: name.to_owned(),
            current,
            previous_versions: Vec::new(),
            created: now.clone(),
            updated: now,
            implementations: Vec::new(),
        };
        assert(state@.previous_versions =~= Seq::empty());
        assert(state@.implementations =~= Seq::empty());
        state
    }

    /// Whether the history is numbered from zero without gaps and the
    /// current snapshot has the next number.
    pub fn is_well_formed(&self) -> (well: bool)
        ensures
            well == self@.wf(),
    {
        if self.previous_versions.len() as u64 != self.current.version {
            return false;
        }
        let mut i: usize = 0;
        while i < self.previous_versions.len()
            invariant
                i <= self.previous_versions.len(),
                self.previous_versions.len() == self.current.version,
                forall|j: int|
                    0 <= j < i ==> (#[trigger] self@.previous_versions[j]).version == j,
            decreases self.previous_versions.len() - i,
        {
            if self.previous_versions[i].version != i as u64 {
                assert(self@.previous_versions[i as int].version != i);
                return false;
            }
            i += 1;
        }
        true
    }

    /// The values of the current snapshot.
    pub fn values(&self) -> (values: &Document)
        ensures
            *values == self.current.values,
    {
        &self.current.values
    }

    /// The overlays of the current snapshot.
    pub fn overlays(&self) -> (overlays: &Vec<Overlay>)
        ensures
            *overlays == self.current.overlays,
    {
        &self.current.overlays
    }

    /// The schema of the current snapshot.
    pub fn schema(&self) -> (schema: &Document)
        ensures
            *schema == self.current.schema,
    {
        &self.current.schema
    }

    /// Whether the current values differ from `template`.
    pub fn template_has_changed(&self, template: &Document) -> (changed: bool)
        ensures
            changed == (self@.current.values != template@),
    {
        !self.current.values.same_as(template)
    }

    /// Whether the current schema differs from `schema`.
    pub fn schema_has_changed(&self, schema: &Document) -> (changed: bool)
        ensures
            changed == (self@.current.schema != schema@),
    {
        !self.current.schema.same_as(schema)
    }

    /// Whether `overlays` are alike to the current ones: as many, and index
    /// by index with the same values. A difference in length or in any value
    /// gives `false`, and `true` says that nothing differs.
    pub fn overlays_have_changed(&self, overlays: &Vec<Overlay>) -> (alike: bool)
        ensures
            alike == overlays_alike(self@.current.overlays, overlays_view(overlays@)),
    {
        if self.current.overlays.len() != overlays.len() {
            return false;
        }
        let mut i: usize = 0;
        while i < self.current.overlays.len()
            invariant
                i <= self.current.overlays.len(),
                self.current.overlays.len() == overlays.len(),
                forall|j: int|
                    0 <= j < i ==> (#[trigger] self@.current.overlays[j]).values == overlays_view(
                        overlays@,
                    )[j].values,
            decreases self.current.overlays.len() - i,
        {
            if !self.current.overlays[i].values.same_as(&overlays[i].values) {
                assert(self@.current.overlays[i as int].values != overlays_view(
                    overlays@,
                )[i as int].values);
                return false;
            }
            i += 1;
        }
        true
    }

    /// Whether `template` replaces the current snapshot.
    pub fn has_changed(&self, template: &TemplateState) -> (changed: bool)
        ensures
            changed == self@.has_changed(template@),
    {
        self.template_has_changed(template.values()) && self.schema_has_changed(template.schema())
            && self.overlays_have_changed(template.overlays())
    }

    /// Replaces the current snapshot by that of `template`, stamped with the
    /// present moment, and moves the old one to the end of the history.
    pub fn update_template(&mut self, template: TemplateState)
        requires
            old(self)@.wf(),
        ensures
            final(self)@ == old(self)@.replaced_by(template@, final(self)@.current.created),
            final(self)@.wf(),
    {
        self.update_template_at(template, now_text());
    }

    /// Replaces the current snapshot by that of `template`, stamped `now`,
    /// and moves the old one to the end of the history.
    pub fn update_template_at(&mut self, template: TemplateState, now: String)
        requires
            old(self)@.wf(),
        ensures
            final(self)@ == old(self)@.replaced_by(template@, now@),
            final(self)@.wf(),
    {
        let ghost before = self@;
        let mut next = VersionedTemplate {
            values: template.current.values,
            version: 0,
            overlays: template.current.overlays,
            schema: template.current.schema,
            created: now,
        };
        std::mem::swap(&mut self.current, &mut next);
        self.previous_versions.push(next);
        self.current.version = self.previous_versions.len() as u64;
        assert(self@.previous_versions =~= before.previous_versions.push(before.current));
    }
}

impl CometState {
    /// An empty state, created now.
    pub fn new(name: &str) -> (state: CometState)
        ensures
            state@.name == name@,
            state@.templates.len() == 0,
            state@.wf(),
    {
        CometState {
            name: name.to_owned(),
            templates: Vec::new(),
            created: now_text(),
            updated: now_text(),
        }
    }

    /// The state that a sync begins from: what was stored, or an empty state
    /// of the given name where nothing was.
    pub fn stored_or_new(name: &str, stored: Option<CometState>) -> (state: CometState)
        ensures
            stored matches Some(kept) ==> state == kept,
            stored is None ==> state@.name == name@ && state@.templates.len() == 0 && state@.wf(),
    {
        match stored {
            Some(kept) => kept,
            None => CometState::new(name),
        }
    }

    /// Whether every template is well formed.
    pub fn is_well_formed(&self) -> (well: bool)
        ensures
            well == self@.wf(),
    {
        let mut i: usize = 0;
        while i < self.templates.len()
            invariant
                i <= self.templates.len(),
                forall|j: int| 0 <= j < i ==> (#[trigger] self@.templates[j]).wf(),
            decreases self.templates.len() - i,
        {
            if !self.templates[i].is_well_formed() {
                assert(!self@.templates[i as int].wf());
                return false;
            }
            i += 1;
        }
        true
    }

    /// Where the template named `name` stands, if there is one.
    pub fn template_index(&self, name: &String) -> (found: Option<usize>)
        ensures
            match found {
                Some(i) => i < self.templates.len() && name_index(self@.templates, name@) == Some(
                    i as int,
                ),
                None => name_index(self@.templates, name@) is None,
            },
    {
        let mut i: usize = 0;
        while i < self.templates.len()
            invariant
                i <= self.templates.len(),
                name_index(self@.templates, name@) == name_index_from(
                    self@.templates,
                    name@,
                    i as int,
                ),
            decreases self.templates.len() - i,
        {
            if self.templates[i].name == *name {
                return Some(i);
            }
            i += 1;
        }
        None
    }

    /// Looks at one candidate, at `now`, and says whether it changed the
    /// state.
    pub fn update_one_at(&mut self, template: TemplateState, now: &String) -> (changed: bool)
        requires
            old(self)@.wf(),
            template@.wf(),
        ensures
            final(self)@.templates == after_candidate(old(self)@.templates, template@, now@),
            changed == candidate_counts(old(self)@.templates, template@),
            final(self)@.wf(),
            final(self).name == old(self).name,
            final(self).created == old(self).created,
            final(self).updated == old(self).updated,
    {
        match self.template_index(&template.name) {
            Some(i) => {
                if self.templates[i].has_changed(&template) {
                    self.templates[i].update_template_at(template, now.clone());
                    true
                } else {
                    false
                }
            },
            None => {
                self.templates.push(template);
                true
            },
        }
    }

    /// Looks at each of `templates` in order, at `now`: a new name is added,
    /// a template that has changed is replaced, and the state is stamped
    /// `now` if any of this happened.
    pub fn update_templates_at(&mut self, templates: Vec<TemplateState>, now: &String)
        requires
            old(self)@.wf(),
            forall|i: int| 0 <= i < templates.len() ==> (#[trigger] templates[i])@.wf(),
        ensures
            final(self)@ == old(self)@.updated_with(templates_view(templates@), now@),
            final(self)@.wf(),
    {
        let ghost before = self@;
        let ghost all = templates_view(templates@);
        let mut has_changed = false;
        for template in iter: templates
            invariant
                all == templates_view(templates@),
                iter.seq() == templates@,
                forall|i: int| 0 <= i < templates.len() ==> (#[trigger] templates[i])@.wf(),
                self@.wf(),
                self@.name == before.name,
                self@.created == before.created,
                self@.updated == before.updated,
                self@.templates == after_candidates(before.templates, all.take(iter.index()), now@),
                has_changed == any_counts(before.templates, all.take(iter.index()), now@),
        {
            assert(all.take(iter.index() + 1).drop_last() =~= all.take(iter.index()));
            if self.update_one_at(template, now) {
                has_changed = true;
            }
        }
        assert(all.take(templates.len() as int) =~= all);
        if has_changed {
            self.updated = now.clone();
        }
    }

    /// Looks at each of `templates` in order, at the present moment.
    pub fn update_templates(&mut self, templates: Vec<TemplateState>)
        requires
            old(self)@.wf(),
            forall|i: int| 0 <= i < templates.len() ==> (#[trigger] templates[i])@.wf(),
        ensures
            exists|now: Seq<char>|
                final(self)@ == old(self)@.updated_with(templates_view(templates@), now),
            final(self)@.wf(),
    {
        let now = now_text();
        self.update_templates_at(templates, &now);
    }

    /// One sync at `now`: a candidate is made of each source, and the
    /// candidates are looked at in order.
    pub fn sync_at(&mut self, sources: Vec<TemplateSource>, now: &String)
        requires
            old(self)@.wf(),
        ensures
            final(self)@ == old(self)@.updated_with(
                candidates_of(sources_view(sources@), now@),
                now@,
            ),
            final(self)@.wf(),
    {
        let ghost all = candidates_of(sources_view(sources@), now@);
        let mut candidates: Vec<TemplateState> = Vec::new();
        for source in iter: sources
            invariant
                all == candidates_of(sources_view(sources@), now@),
                iter.seq() == sources@,
                templates_view(candidates@) == all.take(iter.index()),
                forall|i: int| 0 <= i < candidates.len() ==> (#[trigger] candidates[i])@.wf(),
        {
            let ghost done = candidates@;
            let candidate = TemplateState::new_at(
                source.name.as_str(),
                source.base,
                source.overlays,
                source.schema,
                now.clone(),
            );
            candidates.push(candidate);
            assert(templates_view(candidates@) =~= templates_view(done).push(candidate@));
        }
        assert(all.take(sources.len() as int) =~= all);
        self.update_templates_at(candidates, now);
    }

    /// One sync at the present moment.
    pub fn sync(&mut self, sources: Vec<TemplateSource>)
        requires
            old(self)@.wf(),
        ensures
            exists|now: Seq<char>|
                final(self)@ == old(self)@.updated_with(
                    candidates_of(sources_view(sources@), now),
                    now,
                ),
            final(self)@.wf(),
    {
        let now = now_text();
        self.sync_at(sources, &now);
    }
}

} // verus!
