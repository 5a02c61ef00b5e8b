//! The life of a reflection: it is added once, gathers evidence, and is confirmed,
//! promoted or archived.

use crate::clock::{
    clamp_i64, days_across, local_now, local_time, minutes_from, nearest_i64, parse_local_dt,
    span_days, wall_minutes, Wall,
};
use crate::memory::{
    reflection_views, MemoryStore, Reflection, ReflectionView, StoreView,
    EVIDENCE_ARCHIVE_THRESHOLD, EVIDENCE_CONFIRMED_THRESHOLD, EVIDENCE_PROMOTED_THRESHOLD,
    WEAK_MEMORY_AUTO_CONFIRM_DAYS, WEAK_MEMORY_AUTO_PROMOTE_DAYS,
};
use crate::json::JsonView;
use crate::text::same_text;
use vstd::prelude::*;

verus! {

// ---------------------------------------------------------------------------
// Finding and changing one
// ---------------------------------------------------------------------------

/// The place of the first reflection with this id, from `from` on.
pub open spec fn place_of(rs: Seq<ReflectionView>, id: Seq<char>, from: int) -> Option<int>
    decreases rs.len() - from,
{
    if from < 0 || from >= rs.len() {
        None
    } else if rs[from].id == id {
        Some(from)
    } else {
        place_of(rs, id, from + 1)
    }
}

/// Where a place is found there is a reflection with this id, and else there is
/// none.
pub proof fn lemma_place_of(rs: Seq<ReflectionView>, id: Seq<char>, from: int)
    requires
        0 <= from,
    ensures
        match place_of(rs, id, from) {
            Some(i) => from <= i < rs.len() && rs[i].id == id,
            None => forall|i: int| from <= i < rs.len() ==> (#[trigger] rs[i]).id != id,
        },
    decreases rs.len() - from,
{
    if from < rs.len() && rs[from].id != id {
        lemma_place_of(rs, id, from + 1);
    }
}

/// The place of the first reflection with this id.
pub fn find_reflection(rs: &Vec<Reflection>, id: &str) -> (r: Option<usize>)
    ensures
        match r {
            Some(i) => i < rs@.len() && place_of(reflection_views(rs@), id@, 0) == Some(i as int),
            None => place_of(reflection_views(rs@), id@, 0) is None,
        },
{
    let ghost all = reflection_views(rs@);
    let mut i: usize = 0;
    while i < rs.len()
        invariant
            i <= rs.len(),
            all == reflection_views(rs@),
            place_of(all, id@, 0) == place_of(all, id@, i as int),
        decreases rs.len() - i,
    {
        proof {
            assert(all[i as int] == rs@[i as int]@);
        }
        if same_text(rs[i].id.as_str(), id) {
            return Some(i);
        }
        i = i + 1;
    }
    None
}

/// Whether there is a reflection with this id.
pub fn has_reflection(rs: &Vec<Reflection>, id: &str) -> (r: bool)
    ensures
        r == (place_of(reflection_views(rs@), id@, 0) is Some),
{
    find_reflection(rs, id).is_some()
}

/// The same reflections once more.
pub fn copy_reflections(rs: &Vec<Reflection>) -> (r: Vec<Reflection>)
    ensures
        reflection_views(r@) == reflection_views(rs@),
{
    let mut out: Vec<Reflection> = Vec::new();
    let ghost all = reflection_views(rs@);
    let mut i: usize = 0;
    while i < rs.len()
        invariant
            i <= rs.len(),
            all == reflection_views(rs@),
            reflection_views(out@) =~= all.take(i as int),
        decreases rs.len() - i,
    {
        let ghost before = reflection_views(out@);
        let item = rs[i].copy();
        out.push(item);
        proof {
            assert(reflection_views(out@) =~= before.push(item@));
            assert(all.take(i + 1) =~= all.take(i as int).push(all[i as int]));
        }
        i = i + 1;
    }
    proof {
        assert(all.take(i as int) =~= all);
    }
    out
}

/// A reflection after a signal of the weight `delta` at `now`: for it where the
/// weight is not negative, and else against it.
pub open spec fn signalled(r: ReflectionView, delta: i64, now: Seq<char>) -> ReflectionView {
    if delta >= 0 {
        ReflectionView {
            reinforcement: clamp_i64(r.reinforcement + delta),
            rein_last_signal_at: Some(now),
            ..r
        }
    } else {
        ReflectionView {
            disputation: clamp_i64(r.disputation - delta),
            disp_last_signal_at: Some(now),
            ..r
        }
    }
}

/// A reflection after a signal.
pub fn signal(r: Reflection, delta: i64, now: &str) -> (q: Reflection)
    ensures
        q@ == signalled(r@, delta, now@),
{
    let mut q = r;
    if delta >= 0 {
        q.reinforcement = nearest_i64(q.reinforcement as i128 + delta as i128);
        q.rein_last_signal_at = Some(now.to_string());
    } else {
        q.disputation = nearest_i64(q.disputation as i128 - delta as i128);
        q.disp_last_signal_at = Some(now.to_string());
    }
    q
}

impl StoreView {
    /// The store with one more reflection, unless its id is there.
    pub open spec fn with_reflection(self, r: ReflectionView) -> StoreView {
        if place_of(self.reflections, r.id, 0) is Some {
            self
        } else {
            StoreView { reflections: self.reflections.push(r), ..self }
        }
    }

    /// The store after a signal to the reflection with this id.
    pub open spec fn with_signal(self, id: Seq<char>, delta: i64, now: Seq<char>) -> StoreView {
        match place_of(self.reflections, id, 0) {
            Some(i) => StoreView {
                reflections: self.reflections.update(
                    i,
                    signalled(self.reflections[i], delta, now),
                ),
                ..self
            },
            None => self,
        }
    }
}

impl MemoryStore {
    /// The reflections.
    pub fn get_reflections(&self) -> (r: Vec<Reflection>)
        ensures
            reflection_views(r@) == self@.reflections,
    {
        copy_reflections(self.reflections())
    }

    /// The reflections with this status.
    pub fn get_reflections_by_status(&self, status: &str) -> (r: Vec<Reflection>)
        ensures
            reflection_views(r@) == self@.reflections.filter(
                |x: ReflectionView| x.status == status@,
            ),
    {
        let f = |x: &Reflection| -> (c: bool)
            ensures
                c == (x@.status == status@),
            { same_text(x.status.as_str(), status) };
        crate::order::select(
            self.get_reflections(),
            f,
            Ghost(|x: ReflectionView| x.status == status@),
        )
    }

    /// Adds a reflection, unless one with its id is there.
    pub fn add_reflection(&mut self, r: Reflection) -> (added: bool)
        ensures
            added == (place_of(old(self)@.reflections, r@.id, 0) is None),
            final(self)@ == old(self)@.with_reflection(r@),
    {
        if find_reflection(self.reflections(), r.id.as_str()).is_some() {
            return false;
        }
        let mut all = self.get_reflections();
        let ghost before = reflection_views(all@);
        let ghost said = r@;
        all.push(r);
        proof {
            assert(reflection_views(all@) =~= before.push(said));
        }
        self.save_reflections(all);
        true
    }

    /// Changes the reflection with this id by `updater`; nothing where there is
    /// none.
    pub fn update_reflection<F: FnOnce(Reflection) -> Reflection>(
        &mut self,
        id: &str,
        updater: F,
    ) -> (found: bool)
        requires
            forall|r: Reflection| #[trigger] updater.requires((r,)),
        ensures
            found == (place_of(old(self)@.reflections, id@, 0) is Some),
            !found ==> final(self)@ == old(self)@,
            found ==> exists|r: Reflection, q: Reflection| #[trigger]
                updater.ensures((r,), q) && r@ == old(self)@.reflections[place_of(
                    old(self)@.reflections,
                    id@,
                    0,
                )->0] && final(self)@ == (StoreView {
                    reflections: old(self)@.reflections.update(
                        place_of(old(self)@.reflections, id@, 0)->0,
                        q@,
                    ),
                    ..old(self)@
                }),
    {
        match find_reflection(self.reflections(), id) {
            None => false,
            Some(i) => {
                let mut all = self.get_reflections();
                let ghost before = reflection_views(all@);
                let ghost listed = all@;
                let r = all.remove(i);
                let ghost was = r;
                let q = updater(r);
                let ghost said = q;
                all.insert(i, q);
                proof {
                    assert(before[i as int] == listed[i as int]@);
                    assert(reflection_views(all@) =~= before.update(i as int, said@));
                    assert(updater.ensures((was,), said));
                }
                self.save_reflections(all);
                true
            },
        }
    }

    /// Lets a signal act on the reflection with this id, now.
    pub fn apply_signal(&mut self, reflection_id: &str, delta: i64)
        ensures
            exists|now: Seq<char>|
                final(self)@ == #[trigger] old(self)@.with_signal(reflection_id@, delta, now),
    {
        self.apply_signal_at(reflection_id, delta, local_now().spaced.as_str());
    }

    /// Lets a signal act on the reflection with this id at `now`.
    pub fn apply_signal_at(&mut self, reflection_id: &str, delta: i64, now: &str)
        ensures
            final(self)@ == old(self)@.with_signal(reflection_id@, delta, now@),
    {
        let f = |r: Reflection| -> (q: Reflection)
            ensures
                q@ == signalled(r@, delta, now@),
            { signal(r, delta, now) };
        self.update_reflection(reflection_id, f);
    }
}

/// A reflection is added once: adding it again changes nothing.
pub proof fn law_reflection_idempotent(s: StoreView, r: ReflectionView)
    ensures
        s.with_reflection(r).with_reflection(r) == s.with_reflection(r),
{
    let after = s.with_reflection(r).reflections;
    lemma_place_of(s.reflections, r.id, 0);
    lemma_place_of(after, r.id, 0);
    if place_of(s.reflections, r.id, 0) is None {
        assert(after[s.reflections.len() as int].id == r.id);
    }
}

/// A signal touches one reflection at most, and neither its text nor its status.
pub proof fn law_signal_touches_evidence_only(
    s: StoreView,
    id: Seq<char>,
    delta: i64,
    now: Seq<char>,
    i: int,
)
    requires
        0 <= i < s.reflections.len(),
    ensures
        s.with_signal(id, delta, now).reflections.len() == s.reflections.len(),
        s.with_signal(id, delta, now).reflections[i].id == s.reflections[i].id,
        s.with_signal(id, delta, now).reflections[i].text == s.reflections[i].text,
        s.with_signal(id, delta, now).reflections[i].status == s.reflections[i].status,
        s.reflections[i].id != id ==> s.with_signal(id, delta, now).reflections[i]
            == s.reflections[i],
{
    lemma_place_of(s.reflections, id, 0);
}

/// The minutes by which evidence has aged; nothing where it does not age, since the time
/// of its last signal or the present one is not known.
pub open spec fn evidence_age(last: Option<Wall>, now: Option<Wall>) -> Option<int> {
    match (last, now) {
        (Some(t), Some(n)) => Some(wall_minutes(t, n)),
        _ => None,
    }
}

/// The minutes by which evidence has aged, from the time of its last signal to `now_iso`.
pub fn signal_age(last_signal_at: Option<&str>, now_iso: &str) -> (r: Option<i64>)
    ensures
        ({
            let last = match last_signal_at {
                Some(s) => local_time(s@),
                None => None,
            };
            match evidence_age(last, local_time(now_iso@)) {
                Some(n) => r == Some(n as i64) && n == n as i64,
                None => r is None,
            }
        }),
{
    let last = match last_signal_at {
        Some(s) => parse_local_dt(s),
        None => None,
    };
    match (last, parse_local_dt(now_iso)) {
        (Some(t), Some(n)) => Some(minutes_from(t, n)),
        _ => None,
    }
}

// ---------------------------------------------------------------------------
// Promotion
// ---------------------------------------------------------------------------

/// What a review makes of a reflection.
#[derive(Debug, Clone, Copy, PartialEq, Eq, Structural)]
pub enum Step {
    Stay,
    Confirm,
    Promote,
    Archive,
}

/// The step that a review takes, by the status, the rank of the score, the age and
/// the age of the confirmation in days. What is pending is confirmed for its score
/// or its age, and what is confirmed is promoted for its score or the age of its
/// confirmation; else either is archived for its score.
pub open spec fn step_of(status: Seq<char>, score: i64, age: int, confirmed_age: int) -> Step {
    if status == "pending"@ {
        if score >= EVIDENCE_CONFIRMED_THRESHOLD || age >= WEAK_MEMORY_AUTO_CONFIRM_DAYS {
            Step::Confirm
        } else if score <= EVIDENCE_ARCHIVE_THRESHOLD {
            Step::Archive
        } else {
            Step::Stay
        }
    } else if status == "confirmed"@ {
        if score >= EVIDENCE_PROMOTED_THRESHOLD || confirmed_age >= WEAK_MEMORY_AUTO_PROMOTE_DAYS {
            Step::Promote
        } else if score <= EVIDENCE_ARCHIVE_THRESHOLD {
            Step::Archive
        } else {
            Step::Stay
        }
    } else {
        Step::Stay
    }
}

/// A reflection after a review at `now`, by the rank of its score, its age and the
/// age of its confirmation in days.
pub open spec fn advanced(
    r: ReflectionView,
    score: i64,
    age: int,
    confirmed_age: int,
    now: Seq<char>,
) -> ReflectionView {
    match step_of(r.status, score, age, confirmed_age) {
        Step::Stay => r,
        Step::Confirm => ReflectionView { status: "confirmed"@, confirmed_at: Some(now), ..r },
        Step::Promote => ReflectionView { status: "promoted"@, ..r },
        Step::Archive => ReflectionView { status: "archived"@, ..r },
    }
}

/// The days since the confirmation; without one, more than any number of days.
pub open spec fn confirmed_days(r: ReflectionView, now: Seq<char>) -> int {
    match r.confirmed_at {
        Some(t) => span_days(local_time(t), local_time(now)),
        None => i64::MAX as int,
    }
}

/// A reflection after a review at the time that `now` spells.
pub open spec fn reviewed(r: ReflectionView, score: i64, now: Seq<char>) -> ReflectionView {
    advanced(
        r,
        score,
        span_days(local_time(r.created_at), local_time(now)),
        confirmed_days(r, now),
        now,
    )
}

/// Whether a review confirms a reflection.
pub open spec fn is_confirmed(r: ReflectionView, score: i64, now: Seq<char>) -> bool {
    r.status == "pending"@ && reviewed(r, score, now).status == "confirmed"@
}

/// Whether a review promotes a reflection.
pub open spec fn is_promoted(r: ReflectionView, score: i64, now: Seq<char>) -> bool {
    r.status == "confirmed"@ && reviewed(r, score, now).status == "promoted"@
}

/// The step that a review takes.
pub fn review_step(status: &str, score: i64, age: i64, confirmed_age: i64) -> (r: Step)
    ensures
        r == step_of(status@, score, age as int, confirmed_age as int),
{
    if same_text(status, "pending") {
        if score >= EVIDENCE_CONFIRMED_THRESHOLD || age >= WEAK_MEMORY_AUTO_CONFIRM_DAYS {
            Step::Confirm
        } else if score <= EVIDENCE_ARCHIVE_THRESHOLD {
            Step::Archive
        } else {
            Step::Stay
        }
    } else if same_text(status, "confirmed") {
        if score >= EVIDENCE_PROMOTED_THRESHOLD || confirmed_age >= WEAK_MEMORY_AUTO_PROMOTE_DAYS {
            Step::Promote
        } else if score <= EVIDENCE_ARCHIVE_THRESHOLD {
            Step::Archive
        } else {
            Step::Stay
        }
    } else {
        Step::Stay
    }
}

/// The four names of a status are different.
pub proof fn lemma_statuses_differ()
    ensures
        "pending"@ != "confirmed"@,
        "pending"@ != "promoted"@,
        "pending"@ != "archived"@,
        "confirmed"@ != "promoted"@,
        "confirmed"@ != "archived"@,
        "promoted"@ != "archived"@,
{
    reveal_strlit("pending");
    reveal_strlit("confirmed");
    reveal_strlit("promoted");
    reveal_strlit("archived");
    assert("pending"@.len() == 7 && "confirmed"@.len() == 9);
    assert("promoted"@[0] == 'p' && "archived"@[0] == 'a');
    assert("promoted"@.len() == 8 && "archived"@.len() == 8);
}

/// Reviews a reflection; tells the step that was taken.
pub fn review(r: Reflection, score: i64, age: i64, confirmed_age: i64, now: &str) -> (q: (
    Reflection,
    Step,
))
    ensures
        q.0@ == advanced(r@, score, age as int, confirmed_age as int, now@),
        q.1 == step_of(r@.status, score, age as int, confirmed_age as int),
{
    let step = review_step(r.status.as_str(), score, age, confirmed_age);
    let mut q = r;
    match step {
        Step::Stay => {},
        Step::Confirm => {
            q.status = "confirmed".to_string();
            q.confirmed_at = Some(now.to_string());
        },
        Step::Promote => {
            q.status = "promoted".to_string();
        },
        Step::Archive => {
            q.status = "archived".to_string();
        },
    }
    (q, step)
}

impl StoreView {
    /// The store with what a review of the first `n` reflections promotes taken
    /// into the personas.
    pub open spec fn personas_upto(self, scores: Seq<i64>, now: Seq<char>, n: int) -> StoreView
        decreases n,
    {
        if n <= 0 {
            self
        } else {
            let before = self.personas_upto(scores, now, n - 1);
            let r = self.reflections[n - 1];
            if is_promoted(r, scores[n - 1], now) {
                before.with_persona(r.entity, r.text, now)
            } else {
                before
            }
        }
    }

    /// The reflections after a review.
    pub open spec fn reviewed_all(self, scores: Seq<i64>, now: Seq<char>) -> Seq<ReflectionView> {
        Seq::new(
            self.reflections.len(),
            |i: int| reviewed(self.reflections[i], scores[i], now),
        )
    }

    /// The store after a review of all reflections.
    pub open spec fn promoted(self, scores: Seq<i64>, now: Seq<char>) -> StoreView {
        StoreView {
            reflections: self.reviewed_all(scores, now),
            ..self.personas_upto(scores, now, self.reflections.len() as int)
        }
    }

    /// How many of the first `n` reflections a review confirms.
    pub open spec fn confirmed_count(self, scores: Seq<i64>, now: Seq<char>, n: int) -> nat
        decreases n,
    {
        if n <= 0 {
            0
        } else {
            self.confirmed_count(scores, now, n - 1) + if is_confirmed(
                self.reflections[n - 1],
                scores[n - 1],
                now,
            ) {
                1nat
            } else {
                0nat
            }
        }
    }

    /// How many of the first `n` reflections a review promotes.
    pub open spec fn promoted_count(self, scores: Seq<i64>, now: Seq<char>, n: int) -> nat
        decreases n,
    {
        if n <= 0 {
            0
        } else {
            self.promoted_count(scores, now, n - 1) + if is_promoted(
                self.reflections[n - 1],
                scores[n - 1],
                now,
            ) {
                1nat
            } else {
                0nat
            }
        }
    }
}

/// What the personas take in leaves the rest of the store as it was.
proof fn lemma_personas_upto(s: StoreView, scores: Seq<i64>, now: Seq<char>, n: int)
    ensures
        s.personas_upto(scores, now, n).reflections == s.reflections,
        s.personas_upto(scores, now, n).facts == s.facts,
        s.personas_upto(scores, now, n).recent == s.recent,
        s.personas_upto(scores, now, n).dir == s.dir,
    decreases n,
{
    if n > 0 {
        lemma_personas_upto(s, scores, now, n - 1);
    }
}

impl MemoryStore {
    /// Reviews all reflections now, by the ranks of their scores.
    pub fn promote_reflections(&mut self, scores: &Vec<i64>) -> (r: (usize, usize))
        requires
            scores@.len() == old(self)@.reflections.len(),
        ensures
            exists|now: Seq<char>|
                final(self)@ == #[trigger] old(self)@.promoted(scores@, now) && r.0
                    == old(self)@.confirmed_count(scores@, now, scores@.len() as int) && r.1
                    == old(self)@.promoted_count(scores@, now, scores@.len() as int),
    {
        self.promote_reflections_at(scores, local_now().spaced.as_str())
    }

    /// Reviews all reflections at `now`, by the ranks of their scores, and counts
    /// those that were confirmed and those that were promoted. What is promoted is
    /// taken into the personas.
    pub fn promote_reflections_at(&mut self, scores: &Vec<i64>, now: &str) -> (r: (usize, usize))
        requires
            scores@.len() == old(self)@.reflections.len(),
        ensures
            final(self)@ == old(self)@.promoted(scores@, now@),
            r.0 == old(self)@.confirmed_count(scores@, now@, scores@.len() as int),
            r.1 == old(self)@.promoted_count(scores@, now@, scores@.len() as int),
    {
        let ghost first = self@;
        let rs = self.get_reflections();
        let ghost all = reflection_views(rs@);
        let present = parse_local_dt(now);
        let mut out: Vec<Reflection> = Vec::new();
        let mut confirmed: usize = 0;
        let mut promoted: usize = 0;
        let mut i: usize = 0;
        while i < rs.len()
            invariant
                i <= rs.len(),
                all == reflection_views(rs@),
                all == first.reflections,
                scores@.len() == all.len(),
                present == local_time(now@),
                confirmed <= i,
                promoted <= i,
                self@ == first.personas_upto(scores@, now@, i as int),
                reflection_views(out@) =~= first.reviewed_all(scores@, now@).take(i as int),
                confirmed == first.confirmed_count(scores@, now@, i as int),
                promoted == first.promoted_count(scores@, now@, i as int),
            decreases rs.len() - i,
        {
            let r = rs[i].copy();
            let ghost was = r@;
            let age: i64 = days_across(parse_local_dt(r.created_at.as_str()), present);
            let confirmed_age: i64 = match &r.confirmed_at {
                Some(t) => days_across(parse_local_dt(t.as_str()), present),
                None => i64::MAX,
            };
            let (q, step) = review(r, scores[i], age, confirmed_age, now);
            proof {
                lemma_statuses_differ();
                assert(all[i as int] == rs@[i as int]@);
                assert(was == all[i as int]);
                assert(q@ == reviewed(was, scores@[i as int], now@));
            }
            match step {
                Step::Confirm => {
                    confirmed = confirmed + 1;
                },
                Step::Promote => {
                    promoted = promoted + 1;
                    let _ = self.add_persona_fact_at(
                        rs[i].entity.as_str(),
                        rs[i].text.as_str(),
                        now,
                    );
                },
                _ => {},
            }
            let ghost before = reflection_views(out@);
            let ghost said = q@;
            out.push(q);
            proof {
                assert(reflection_views(out@) =~= before.push(said));
                let goal = first.reviewed_all(scores@, now@);
                assert(goal.take(i + 1) =~= goal.take(i as int).push(goal[i as int]));
            }
            i = i + 1;
        }
        proof {
            let goal = first.reviewed_all(scores@, now@);
            assert(goal.take(i as int) =~= goal);
            lemma_personas_upto(first, scores@, now@, i as int);
        }
        self.save_reflections(out);
        (confirmed, promoted)
    }
}

/// What is archived or promoted stays so, and nothing goes back: a review leaves a
/// status as it is or moves it from pending to confirmed, from confirmed to
/// promoted, or from either to archived.
pub proof fn law_review_moves_forward(
    r: ReflectionView,
    score: i64,
    age: int,
    confirmed_age: int,
    now: Seq<char>,
)
    ensures
        ({
            let q = advanced(r, score, age, confirmed_age, now);
            ||| q.status == r.status
            ||| r.status == "pending"@ && q.status == "confirmed"@
            ||| r.status == "confirmed"@ && q.status == "promoted"@
            ||| (r.status == "pending"@ || r.status == "confirmed"@) && q.status == "archived"@
        }),
        r.status == "archived"@ || r.status == "promoted"@ ==> advanced(
            r,
            score,
            age,
            confirmed_age,
            now,
        ) == r,
{
    lemma_statuses_differ();
}

/// A pending reflection is confirmed where its score is 1 or more or it is a week
/// old, and a confirmed one promoted where its score is 2 or more or its
/// confirmation is a week old.
pub proof fn law_review_thresholds(
    r: ReflectionView,
    score: i64,
    age: int,
    confirmed_age: int,
    now: Seq<char>,
)
    ensures
        r.status == "pending"@ ==> (advanced(r, score, age, confirmed_age, now).status
            == "confirmed"@ <==> score >= EVIDENCE_CONFIRMED_THRESHOLD || age
            >= WEAK_MEMORY_AUTO_CONFIRM_DAYS),
        r.status == "confirmed"@ ==> (advanced(r, score, age, confirmed_age, now).status
            == "promoted"@ <==> score >= EVIDENCE_PROMOTED_THRESHOLD || confirmed_age
            >= WEAK_MEMORY_AUTO_PROMOTE_DAYS),
{
    lemma_statuses_differ();
}

/// Once a text stands in a section, the further entries of a review leave it there.
proof fn lemma_persona_kept(
    s: StoreView,
    entity: Seq<char>,
    text: Seq<char>,
    other: Seq<char>,
    words: Seq<char>,
    ts: Seq<char>,
)
    requires
        s.persona_accepted(entity, text) == Ok::<bool, Seq<char>>(false),
    ensures
        s.with_persona(other, words, ts).persona_accepted(entity, text) == Ok::<bool, Seq<char>>(
            false,
        ),
{
    if s.persona_accepted(other, words) == Ok::<bool, Seq<char>>(true) {
        let section = s.persona.items_at(other)->0;
        let after = section.push(crate::memory::persona_entry(words, ts));
        crate::json::lemma_put_field(
            s.persona->Record_0,
            other,
            JsonView::List(after),
            entity,
        );
        if other == entity {
            let i = choose|i: int|
                0 <= i < section.len() && (#[trigger] section[i]).text_at("text"@) == Some(text);
            assert(after[i].text_at("text"@) == Some(text));
        }
    }
}

/// A section that is a list stays one.
proof fn lemma_section_kept(
    s: StoreView,
    entity: Seq<char>,
    other: Seq<char>,
    words: Seq<char>,
    ts: Seq<char>,
)
    requires
        s.persona.items_at(entity) is Some,
    ensures
        s.with_persona(other, words, ts).persona.items_at(entity) is Some,
{
    if s.persona_accepted(other, words) == Ok::<bool, Seq<char>>(true) {
        let section = s.persona.items_at(other)->0;
        let after = section.push(crate::memory::persona_entry(words, ts));
        crate::json::lemma_put_field(
            s.persona->Record_0,
            other,
            JsonView::List(after),
            entity,
        );
    }
}

/// What a review promotes stands in the personas afterwards, in the section of its
/// entity, provided that section is there.
pub proof fn law_promoted_joins_persona(
    s: StoreView,
    scores: Seq<i64>,
    now: Seq<char>,
    n: int,
    i: int,
)
    requires
        0 <= i < n <= s.reflections.len(),
        is_promoted(s.reflections[i], scores[i], now),
        s.persona.items_at(s.reflections[i].entity) is Some,
    ensures
        s.personas_upto(scores, now, n).persona_accepted(
            s.reflections[i].entity,
            s.reflections[i].text,
        ) == Ok::<bool, Seq<char>>(false),
    decreases n,
{
    let entity = s.reflections[i].entity;
    let text = s.reflections[i].text;
    let before = s.personas_upto(scores, now, n - 1);
    let r = s.reflections[n - 1];
    if i == n - 1 {
        lemma_sections_kept(s, scores, now, n - 1, entity);
        if before.persona_accepted(entity, text) == Ok::<bool, Seq<char>>(true) {
            crate::memory::law_persona_once(before, entity, text, now);
        }
    } else {
        law_promoted_joins_persona(s, scores, now, n - 1, i);
        if is_promoted(r, scores[n - 1], now) {
            lemma_persona_kept(before, entity, text, r.entity, r.text, now);
        }
    }
}

proof fn lemma_sections_kept(
    s: StoreView,
    scores: Seq<i64>,
    now: Seq<char>,
    n: int,
    entity: Seq<char>,
)
    requires
        s.persona.items_at(entity) is Some,
        n <= s.reflections.len(),
    ensures
        s.personas_upto(scores, now, n).persona.items_at(entity) is Some,
    decreases n,
{
    if n > 0 {
        lemma_sections_kept(s, scores, now, n - 1, entity);
        let r = s.reflections[n - 1];
        if is_promoted(r, scores[n - 1], now) {
            lemma_section_kept(
                s.personas_upto(scores, now, n - 1),
                entity,
                r.entity,
                r.text,
                now,
            );
        }
    }
}

} // verus!
