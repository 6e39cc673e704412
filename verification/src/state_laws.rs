//! What holds of every history: the version of a template counts the
//! changes that were applied to it, and a round stamps the state exactly
//! when it changed it.

use vstd::prelude::*;
use crate::state::StateView;
use crate::state::TemplateView;
use crate::state::after_candidate;
use crate::state::after_candidates;
use crate::state::any_counts;
use crate::state::name_index;
use crate::state::name_index_from;

verus! {

impl TemplateView {
    /// This template after `candidate` was looked at, at `now`: replaced if
    /// it has changed, and as it was if not.
    pub open spec fn followed(self, candidate: TemplateView, now: Seq<char>) -> TemplateView {
        if self.has_changed(candidate) {
            self.replaced_by(candidate, now)
        } else {
            self
        }
    }

    /// This template after each of `candidates` was looked at, in order.
    pub open spec fn followed_all(self, candidates: Seq<TemplateView>, now: Seq<char>) -> TemplateView
        decreases candidates.len(),
    {
        if candidates.len() == 0 {
            self
        } else {
            self.followed_all(candidates.drop_last(), now).followed(candidates.last(), now)
        }
    }

    /// How many of `candidates` replaced the snapshot that was current when
    /// their turn came.
    pub open spec fn replacements(self, candidates: Seq<TemplateView>, now: Seq<char>) -> nat
        decreases candidates.len(),
    {
        if candidates.len() == 0 {
            0
        } else {
            let before = self.followed_all(candidates.drop_last(), now);
            self.replacements(candidates.drop_last(), now) + if before.has_changed(
                candidates.last(),
            ) {
                1nat
            } else {
                0nat
            }
        }
    }
}

/// A replacement keeps the history well formed, raises the version by one
/// and lengthens the history by one, the old snapshot being its last.
pub proof fn lemma_replacement(template: TemplateView, candidate: TemplateView, now: Seq<char>)
    requires
        template.wf(),
    ensures
        template.replaced_by(candidate, now).wf(),
        template.replaced_by(candidate, now).current.version == template.current.version + 1,
        template.replaced_by(candidate, now).previous_versions.len()
            == template.previous_versions.len() + 1,
        template.replaced_by(candidate, now).previous_versions.last() == template.current,
        template.replaced_by(candidate, now).previous_versions.drop_last()
            == template.previous_versions,
{
}

/// The version of a template counts the changes that were applied to it,
/// and so does the length of its history: both grow by the number of
/// candidates that replaced the snapshot before them, and by nothing else.
pub proof fn lemma_version_counts_changes(
    template: TemplateView,
    candidates: Seq<TemplateView>,
    now: Seq<char>,
)
    requires
        template.wf(),
    ensures
        template.followed_all(candidates, now).wf(),
        template.followed_all(candidates, now).current.version == template.current.version
            + template.replacements(candidates, now),
        template.followed_all(candidates, now).previous_versions.len()
            == template.previous_versions.len() + template.replacements(candidates, now),
        template.followed_all(candidates, now).name == template.name,
        template.replacements(candidates, now) <= candidates.len(),
    decreases candidates.len(),
{
    if candidates.len() > 0 {
        lemma_version_counts_changes(template, candidates.drop_last(), now);
    }
}

/// Where every candidate replaces the snapshot before it, the replacements
/// are as many as the candidates.
pub proof fn lemma_all_replace(template: TemplateView, candidates: Seq<TemplateView>, now: Seq<char>)
    requires
        forall|k: int|
            0 <= k < candidates.len() ==> template.followed_all(
                #[trigger] candidates.take(k),
                now,
            ).has_changed(candidates[k]),
    ensures
        template.replacements(candidates, now) == candidates.len(),
    decreases candidates.len(),
{
    if candidates.len() > 0 {
        let shorter = candidates.drop_last();
        assert forall|k: int| 0 <= k < shorter.len() implies template.followed_all(
            #[trigger] shorter.take(k),
            now,
        ).has_changed(shorter[k]) by {
            assert(shorter.take(k) =~= candidates.take(k));
        }
        lemma_all_replace(template, shorter, now);
    }
}

/// What a scan from `from` on returns: the first position at or after it
/// of a template of that name.
proof fn lemma_name_index_scan(templates: Seq<TemplateView>, name: Seq<char>, from: int)
    requires
        0 <= from <= templates.len(),
    ensures
        match name_index_from(templates, name, from) {
            Some(i) => {
                &&& from <= i < templates.len()
                &&& templates[i].name == name
                &&& forall|j: int| from <= j < i ==> (#[trigger] templates[j]).name != name
            },
            None => forall|j: int|
                from <= j < templates.len() ==> (#[trigger] templates[j]).name != name,
        },
    decreases templates.len() - from,
{
    if from < templates.len() && templates[from].name != name {
        lemma_name_index_scan(templates, name, from + 1);
    }
}

/// What `name_index` returns: the position of a template of that name
/// before which no template has it, or nothing where no template has it.
pub proof fn lemma_name_index(templates: Seq<TemplateView>, name: Seq<char>)
    ensures
        match name_index(templates, name) {
            Some(i) => {
                &&& 0 <= i < templates.len()
                &&& templates[i].name == name
                &&& forall|j: int| 0 <= j < i ==> (#[trigger] templates[j]).name != name
            },
            None => forall|j: int|
                0 <= j < templates.len() ==> (#[trigger] templates[j]).name != name,
        },
{
    lemma_name_index_scan(templates, name, 0);
}

/// A candidate whose name is known is applied to the first template of that
/// name and to no other: that template becomes what following the candidate
/// makes of it, and the list keeps its length.
pub proof fn lemma_known_name_is_followed(
    templates: Seq<TemplateView>,
    candidate: TemplateView,
    now: Seq<char>,
)
    requires
        name_index(templates, candidate.name) is Some,
    ensures
        ({
            let at = name_index(templates, candidate.name)->Some_0;
            &&& 0 <= at < templates.len()
            &&& after_candidate(templates, candidate, now) == templates.update(
                at,
                templates[at].followed(candidate, now),
            )
        }),
{
    lemma_name_index(templates, candidate.name);
}

/// After `n` candidates that each replaced the snapshot before it, a
/// template that began at version 0 has version `n`, and its history holds
/// `n` snapshots.
pub proof fn lemma_n_changes_give_version_n(
    template: TemplateView,
    candidates: Seq<TemplateView>,
    now: Seq<char>,
)
    requires
        template.wf(),
        template.current.version == 0,
        forall|k: int|
            0 <= k < candidates.len() ==> template.followed_all(
                #[trigger] candidates.take(k),
                now,
            ).has_changed(candidates[k]),
    ensures
        template.followed_all(candidates, now).current.version == candidates.len(),
        template.followed_all(candidates, now).previous_versions.len() == candidates.len(),
        template.followed_all(candidates, now).wf(),
{
    lemma_version_counts_changes(template, candidates, now);
    lemma_all_replace(template, candidates, now);
}

/// The history of one name: where a list knows no template of a name and
/// every candidate has that name, the first candidate is added as it is and
/// each later one is followed by that same template. The list grows by one
/// template, which is the first candidate after it followed all the others.
pub proof fn lemma_history_of_a_name(
    templates: Seq<TemplateView>,
    candidates: Seq<TemplateView>,
    now: Seq<char>,
)
    requires
        candidates.len() >= 1,
        name_index(templates, candidates[0].name) is None,
        forall|i: int|
            0 <= i < candidates.len() ==> (#[trigger] candidates[i]).name == candidates[0].name,
    ensures
        after_candidates(templates, candidates, now) == templates.push(
            candidates[0].followed_all(candidates.skip(1), now),
        ),
    decreases candidates.len(),
{
    let name = candidates[0].name;
    let first = candidates[0];
    let earlier = candidates.drop_last();
    let last = candidates.last();
    lemma_name_index(templates, name);
    if candidates.len() == 1 {
        assert(earlier =~= Seq::<TemplateView>::empty());
        assert(candidates.skip(1) =~= Seq::<TemplateView>::empty());
    } else {
        assert forall|i: int| 0 <= i < earlier.len() implies (#[trigger] earlier[i]).name
            == earlier[0].name by {
            assert(earlier[i] == candidates[i]);
            assert(earlier[0] == candidates[0]);
        }
        lemma_history_of_a_name(templates, earlier, now);
        let so_far = first.followed_all(earlier.skip(1), now);
        let before = templates.push(so_far);
        lemma_followed_keeps_name(first, earlier.skip(1), now);
        lemma_name_index_is(before, name, templates.len() as int);
        assert(candidates.skip(1).drop_last() =~= earlier.skip(1));
        assert(before.update(templates.len() as int, so_far.followed(last, now)) =~= templates.push(
            so_far.followed(last, now),
        ));
    }
}

/// A template keeps its name whatever it follows.
pub proof fn lemma_followed_keeps_name(
    template: TemplateView,
    candidates: Seq<TemplateView>,
    now: Seq<char>,
)
    ensures
        template.followed_all(candidates, now).name == template.name,
    decreases candidates.len(),
{
    if candidates.len() > 0 {
        lemma_followed_keeps_name(template, candidates.drop_last(), now);
    }
}

/// A position is the first of its name where no earlier template has that
/// name.
pub proof fn lemma_name_index_is(templates: Seq<TemplateView>, name: Seq<char>, at: int)
    requires
        0 <= at < templates.len(),
        templates[at].name == name,
        forall|j: int| 0 <= j < at ==> (#[trigger] templates[j]).name != name,
    ensures
        name_index(templates, name) == Some(at),
{
    lemma_name_index_upto(templates, name, at);
}

/// The first position of a name at or after `from` is the first position
/// of all, where no earlier template has that name.
proof fn lemma_name_index_upto(templates: Seq<TemplateView>, name: Seq<char>, from: int)
    requires
        0 <= from <= templates.len(),
        forall|j: int| 0 <= j < from ==> (#[trigger] templates[j]).name != name,
    ensures
        name_index(templates, name) == name_index_from(templates, name, from),
    decreases from,
{
    if from > 0 {
        lemma_name_index_upto(templates, name, from - 1);
    }
}

/// `later` is `earlier` or what `earlier` became: it has the same name and
/// the same moment of creation, and its history begins with the whole
/// history of `earlier`, snapshot for snapshot, followed by the snapshot
/// that was current in `earlier` if it has been replaced since.
pub open spec fn continues(earlier: TemplateView, later: TemplateView) -> bool {
    &&& later.name == earlier.name
    &&& later.created == earlier.created
    &&& later.previous_versions.len() >= earlier.previous_versions.len()
    &&& forall|k: int|
        0 <= k < earlier.previous_versions.len() ==> #[trigger] later.previous_versions[k]
            == earlier.previous_versions[k]
    &&& if later.previous_versions.len() == earlier.previous_versions.len() {
        later.current == earlier.current
    } else {
        later.previous_versions[earlier.previous_versions.len() as int] == earlier.current
    }
}

/// One candidate removes no template and rewrites no history: every
/// template stays where it was and continues what it was.
pub proof fn lemma_candidate_appends_only(
    templates: Seq<TemplateView>,
    candidate: TemplateView,
    now: Seq<char>,
)
    ensures
        after_candidate(templates, candidate, now).len() >= templates.len(),
        forall|i: int|
            0 <= i < templates.len() ==> continues(
                #[trigger] templates[i],
                after_candidate(templates, candidate, now)[i],
            ),
{
    lemma_name_index(templates, candidate.name);
}

/// To continue is transitive.
pub proof fn lemma_continues_chain(first: TemplateView, second: TemplateView, third: TemplateView)
    requires
        continues(first, second),
        continues(second, third),
    ensures
        continues(first, third),
{
    if second.previous_versions.len() > first.previous_versions.len() {
        assert(third.previous_versions[first.previous_versions.len() as int]
            == second.previous_versions[first.previous_versions.len() as int]);
    }
}

/// The history is append-only: a round removes no template and rewrites no
/// history. Every template stays at its place, and its history after the
/// round begins with its history before.
pub proof fn lemma_round_appends_only(
    templates: Seq<TemplateView>,
    candidates: Seq<TemplateView>,
    now: Seq<char>,
)
    ensures
        after_candidates(templates, candidates, now).len() >= templates.len(),
        forall|i: int|
            0 <= i < templates.len() ==> continues(
                #[trigger] templates[i],
                after_candidates(templates, candidates, now)[i],
            ),
    decreases candidates.len(),
{
    if candidates.len() > 0 {
        let before = after_candidates(templates, candidates.drop_last(), now);
        let after = after_candidates(templates, candidates, now);
        lemma_round_appends_only(templates, candidates.drop_last(), now);
        lemma_candidate_appends_only(before, candidates.last(), now);
        assert forall|i: int| 0 <= i < templates.len() implies continues(
            #[trigger] templates[i],
            after[i],
        ) by {
            lemma_continues_chain(templates[i], before[i], after[i]);
        }
    }
}

/// A round in which no candidate counts leaves the state exactly as it was,
/// its stamp included.
pub proof fn lemma_quiet_round_keeps_state(
    state: StateView,
    candidates: Seq<TemplateView>,
    now: Seq<char>,
)
    requires
        !any_counts(state.templates, candidates, now),
    ensures
        state.updated_with(candidates, now) == state,
    decreases candidates.len(),
{
    if candidates.len() > 0 {
        lemma_quiet_round_keeps_state(state, candidates.drop_last(), now);
    }
}

/// A round in which a candidate counts stamps the state with the moment of
/// the round, once: whatever the number of candidates that count, the stamp
/// is that moment.
pub proof fn lemma_busy_round_stamps_state(
    state: StateView,
    candidates: Seq<TemplateView>,
    now: Seq<char>,
)
    requires
        any_counts(state.templates, candidates, now),
    ensures
        state.updated_with(candidates, now).updated == now,
        state.updated_with(candidates, now).created == state.created,
        state.updated_with(candidates, now).name == state.name,
{
}

/// A round keeps every template well formed, where the candidates are.
pub proof fn lemma_round_keeps_wf(state: StateView, candidates: Seq<TemplateView>, now: Seq<char>)
    requires
        state.wf(),
        forall|i: int| 0 <= i < candidates.len() ==> (#[trigger] candidates[i]).wf(),
    ensures
        state.updated_with(candidates, now).wf(),
    decreases candidates.len(),
{
    if candidates.len() > 0 {
        lemma_round_keeps_wf(state, candidates.drop_last(), now);
        let before = state.updated_with(candidates.drop_last(), now).templates;
        lemma_name_index(before, candidates.last().name);
    }
}

} // verus!
