//! The two pipelines of the server, as the decisions they take between one
//! piece of outside work and the next: drawing a tile, and reading a group
//! through the cache.

use crate::bus::{broadcast_message, wire_encode};
use crate::dict::{
    cached_group, entry_after_draws, get_cached_group, group_key_text, init_cached_group,
    set_cached_group, update_placement, upsert_cached_group, CacheFill, CachePatch, GateRequest,
    ZeroInit,
};
use crate::gate::{admits, reply_of, threshold_at, GateOutcome, DRAW_PERIOD_MS};
use crate::models::{
    addressable, fails_with, group_origin, tile_offset, DrawEvent, GroupKey, ServiceError,
    ServiceErrorView, GROUP_LEN, MIN_COORD,
};
use crate::query::{
    batch_of, batch_upsert_tile, get_tile_group, group_of_draw, group_of_rows, row_in_group,
    row_of_draw, stray_row, BatchWrite, TileRow,
};
use crate::text::{decimal_nat, fmt_two_digits, fmt_u128, two_digits};
use vstd::prelude::*;
use vstd::string::*;

verus! {

/// What a stored placement that lies after the present is reported as.
pub open spec fn future_placement(placement_ms: nat, now_ms: nat) -> ServiceErrorView {
    ServiceErrorView::Fatal(
        "Invariant is false: placement_epoch="@ + decimal_nat(placement_ms)
            + "ms is not smaller than duration_now="@ + decimal_nat(now_ms) + "ms"@,
    )
}

/// What a refusal by the limiter is reported as when more than a draw period
/// has passed since the stored placement.
pub open spec fn overdue_refusal(difference_ms: nat) -> ServiceErrorView {
    ServiceErrorView::Fatal(
        "Invariant is false: difference="@ + decimal_nat(difference_ms)
            + "ms is not smaller than DRAW_PERIOD=60000ms"@,
    )
}

fn future_placement_error(placement_ms: u128, now_ms: u64) -> (err: ServiceError)
    ensures
        err@ == future_placement(placement_ms as nat, now_ms as nat),
{
    let placement = fmt_u128(placement_ms);
    let now = fmt_u128(now_ms as u128);
    let message = String::from_str("Invariant is false: placement_epoch=").concat(
        placement.as_str(),
    ).concat("ms is not smaller than duration_now=").concat(now.as_str()).concat("ms");
    ServiceError::Fatal(message)
}

/// Time that a client whose last draw was placed at `placement_epoch` has to
/// wait at `duration_now` before it may draw again, all in milliseconds. A
/// placement in the future, or one that is older than a draw period, means
/// that the limiter did not do what it promises.
pub fn get_remaining_time(placement_epoch: u64, duration_now: u64) -> (res: Result<
    u64,
    ServiceError,
>)
    ensures
        placement_epoch > duration_now ==> fails_with(
            res,
            future_placement(placement_epoch as nat, duration_now as nat),
        ),
        placement_epoch <= duration_now && duration_now - placement_epoch > DRAW_PERIOD_MS
            ==> fails_with(res, overdue_refusal((duration_now - placement_epoch) as nat)),
        placement_epoch <= duration_now && duration_now - placement_epoch <= DRAW_PERIOD_MS ==> res
            == Ok::<u64, ServiceError>((DRAW_PERIOD_MS - (duration_now - placement_epoch)) as u64),
{
    if placement_epoch > duration_now {
        return Err(future_placement_error(placement_epoch as u128, duration_now));
    }
    let difference = duration_now - placement_epoch;
    if difference > DRAW_PERIOD_MS {
        let message = String::from_str("Invariant is false: difference=").concat(
            fmt_u128(difference as u128).as_str(),
        ).concat("ms is not smaller than DRAW_PERIOD=60000ms");
        return Err(ServiceError::Fatal(message));
    }
    Ok(DRAW_PERIOD_MS - difference)
}

/// What a client that has to wait `remaining_ms` more is told: the whole
/// seconds that remain, as minutes and seconds of two digits each.
pub open spec fn wait_text(remaining_ms: nat) -> Seq<char> {
    two_digits(remaining_ms / 1000 / 60) + ":"@ + two_digits(remaining_ms / 1000 % 60)
        + " minutes remaining until you can draw another tile."@
}

/// The message that tells a client to wait `remaining_ms` more.
pub fn wait_message(remaining_ms: u64) -> (message: String)
    ensures
        message@ == wait_text(remaining_ms as nat),
{
    let seconds = remaining_ms / 1000;
    fmt_two_digits(seconds / 60).concat(":").concat(fmt_two_digits(seconds % 60).as_str()).concat(
        " minutes remaining until you can draw another tile.",
    )
}

/// What the limiter's answer `reply` to a draw made at `now_ms` means for the
/// draw: nothing stands in its way, or the client has to wait, or the limiter
/// broke its promise.
pub open spec fn gate_verdict(reply: int, now_ms: u64) -> Option<ServiceErrorView> {
    if reply < 0 {
        None
    } else if reply > now_ms {
        Some(future_placement(reply as nat, now_ms as nat))
    } else if now_ms - reply > DRAW_PERIOD_MS {
        Some(overdue_refusal((now_ms - reply) as nat))
    } else {
        Some(ServiceErrorView::Forbidden(wait_text((DRAW_PERIOD_MS - (now_ms - reply)) as nat)))
    }
}

/// A limiter that keeps its promise never trips the checks on its answer:
/// an admission lets the draw pass, and a refusal of a client whose stored
/// instant is not in the future tells the client how long to wait.
pub proof fn lemma_kept_promise_passes_the_checks(last: Option<u64>, now_ms: u64)
    requires
        last matches Some(placed) ==> placed <= now_ms,
    ensures
        admits(last, threshold_at(now_ms)) ==> gate_verdict(
            reply_of(GateOutcome::Admitted),
            now_ms,
        ) is None,
        !admits(last, threshold_at(now_ms)) ==> gate_verdict(
            reply_of(GateOutcome::Denied(last.unwrap())),
            now_ms,
        ) == Some(
            ServiceErrorView::Forbidden(
                wait_text((DRAW_PERIOD_MS - (now_ms - last.unwrap())) as nat),
            ),
        ),
{
}

/// Reads the limiter's answer to a draw made at `now_ms`.
pub fn check_gate_reply(reply: i128, now_ms: u64) -> (res: Result<(), ServiceError>)
    ensures
        match gate_verdict(reply as int, now_ms) {
            None => res is Ok,
            Some(refusal) => fails_with(res, refusal),
        },
{
    match GateOutcome::from_reply(reply) {
        Some(GateOutcome::Admitted) => Ok(()),
        Some(GateOutcome::Denied(placed)) => {
            let remaining = get_remaining_time(placed, now_ms)?;
            Err(ServiceError::Forbidden(wait_message(remaining)))
        },
        None => Err(future_placement_error(reply as u128, now_ms)),
    }
}

/// The outside work that a draw waits for.
#[derive(Debug, PartialEq, Eq, Copy, Clone, Structural)]
pub enum DrawPhase {
    /// The limiter is deciding whether the client may draw.
    Gate,
    /// The store is committing the tile and the placement.
    Commit,
    /// The cache is making sure that the group has a buffer.
    ZeroInit,
    /// The cache is writing the colour into the buffer.
    Patch,
    /// The event is being published.
    Publish,
    /// Nothing is left to do.
    Done,
}

/// Position of a phase in the order in which a draw passes through them.
pub open spec fn phase_rank(phase: DrawPhase) -> nat {
    match phase {
        DrawPhase::Gate => 0,
        DrawPhase::Commit => 1,
        DrawPhase::ZeroInit => 2,
        DrawPhase::Patch => 3,
        DrawPhase::Publish => 4,
        DrawPhase::Done => 5,
    }
}

/// Whether a draw that is in the phase `from` can be in the phase `to` one
/// step later: it moves on to the next phase or ends, and once it has ended
/// it stays so.
pub open spec fn follows(from: DrawPhase, to: DrawPhase) -> bool {
    if from == DrawPhase::Done {
        to == DrawPhase::Done
    } else {
        to == DrawPhase::Done || phase_rank(to) == phase_rank(from) + 1
    }
}

/// Whether the step from the phase `from` to the phase `to` is the one in
/// which the client is answered: the step that leaves the commit, or the
/// one that ends the draw at the limiter.
pub open spec fn answers(from: DrawPhase, to: DrawPhase) -> bool {
    from == DrawPhase::Commit || (from == DrawPhase::Gate && to == DrawPhase::Done)
}

/// Whether `phases` are the phases of one draw, step after step.
pub open spec fn is_run(phases: Seq<DrawPhase>) -> bool {
    forall|i: int| 0 <= i < phases.len() - 1 ==> follows(phases[i], #[trigger] phases[i + 1])
}

/// Number of steps of `phases` in which the client is answered.
pub open spec fn answers_in(phases: Seq<DrawPhase>) -> nat
    decreases phases.len(),
{
    if phases.len() < 2 {
        0
    } else if answers(phases[phases.len() - 2], phases[phases.len() - 1]) {
        answers_in(phases.drop_last()) + 1
    } else {
        answers_in(phases.drop_last())
    }
}

/// A client is never answered twice, and is answered once the draw has
/// passed the commit or has ended: however the outside work turns out, a
/// draw that began at the limiter was answered exactly once if it is
/// beyond the commit, and not yet otherwise.
pub proof fn lemma_client_is_answered_once(phases: Seq<DrawPhase>)
    requires
        phases.len() > 0,
        phases[0] == DrawPhase::Gate,
        is_run(phases),
    ensures
        answers_in(phases) <= 1,
        answers_in(phases) == 1 <==> phase_rank(phases.last()) >= 2,
    decreases phases.len(),
{
    if phases.len() >= 2 {
        let earlier = phases.drop_last();
        assert forall|i: int| 0 <= i < earlier.len() - 1 implies follows(
            earlier[i],
            #[trigger] earlier[i + 1],
        ) by {
            assert(follows(phases[i], phases[i + 1]));
        }
        lemma_client_is_answered_once(earlier);
        assert(earlier.last() == phases[phases.len() - 2]);
        assert(follows(phases[phases.len() - 2], phases[phases.len() - 2 + 1]));
    }
}

/// The outside work that a draw asks for next.
#[derive(Debug, PartialEq)]
pub enum DrawAction {
    /// Ask the limiter; it answers with a number.
    CheckGate(GateRequest),
    /// Commit both rows in one batch.
    Commit(BatchWrite),
    /// Make sure that the group has a buffer in the cache.
    InitGroup(ZeroInit),
    /// Write the colour into the cached buffer.
    PatchGroup(CachePatch),
    /// Publish the payload on the draw channel.
    Publish(Vec<u8>),
    /// Nothing: the draw is over.
    Finish,
}

/// One draw on its way through the pipeline.
#[derive(Debug)]
pub struct DrawTask {
    phase: DrawPhase,
    draw: DrawEvent,
    ip: String,
    now_ms: u64,
}

/// What a draw does after one piece of outside work.
#[derive(Debug)]
pub struct DrawStep {
    /// The draw, in its next phase.
    pub task: DrawTask,
    /// The outside work to do next.
    pub action: DrawAction,
    /// The answer to the client, in the step that settles it.
    pub reply: Option<Result<(), ServiceError>>,
    /// A failure of work that the client no longer waits for.
    pub logged: Option<ServiceError>,
}

/// Whether a draw can be carried out at all: its tile has a group, and its
/// instant fits the timestamps of the store.
pub open spec fn drawable(draw: DrawEvent, now_ms: u64) -> bool {
    &&& addressable(draw.x as int)
    &&& addressable(draw.y as int)
    &&& now_ms <= i64::MAX
}

/// What a draw at a tile that has no group is reported as.
pub open spec fn outside_canvas() -> ServiceErrorView {
    ServiceErrorView::Forbidden("The tile lies outside the canvas."@)
}

/// What a draw at an instant that no timestamp holds is reported as.
pub open spec fn unrepresentable_now() -> ServiceErrorView {
    ServiceErrorView::Fatal("Cannot represent the current time as a timestamp"@)
}

/// Whether `init` asks for the buffer of the group of `draw`.
pub open spec fn inits_group_of(init: ZeroInit, draw: DrawEvent) -> bool {
    &&& init.key@ == group_key_text(group_origin(draw.x as int), group_origin(draw.y as int))
    &&& init.len == GROUP_LEN
}

/// Whether `patch` writes the colour of `draw` at the offset of its tile in
/// the buffer of its group.
pub open spec fn patches_tile_of(patch: CachePatch, draw: DrawEvent) -> bool {
    &&& patch.key@ == group_key_text(group_origin(draw.x as int), group_origin(draw.y as int))
    &&& patch.byte_offset == tile_offset(
        draw.x - group_origin(draw.x as int),
        draw.y - group_origin(draw.y as int),
    )
    &&& patch.value@ == seq![draw.rgb.0, draw.rgb.1, draw.rgb.2]
}

impl DrawStep {
    /// Whether this step tells the client that the draw failed as `err`.
    pub open spec fn refuses_with(&self, err: ServiceErrorView) -> bool {
        self.reply matches Some(Err(e)) && e@ == err
    }

    /// Whether this step ends the draw without asking for more work.
    pub open spec fn ends(&self) -> bool {
        self.task.phase_of() == DrawPhase::Done && self.action is Finish
    }
}

impl DrawTask {
    #[verifier::type_invariant]
    spec fn inv(self) -> bool {
        self.phase != DrawPhase::Done ==> drawable(self.draw, self.now_ms)
    }

    /// The phase that the draw is in.
    pub closed spec fn phase_of(&self) -> DrawPhase {
        self.phase
    }

    /// The event that is being drawn.
    pub closed spec fn draw_of(&self) -> DrawEvent {
        self.draw
    }

    /// The client that draws.
    pub closed spec fn ip_of(&self) -> String {
        self.ip
    }

    /// The instant of the draw, in milliseconds since the epoch.
    pub closed spec fn now_of(&self) -> u64 {
        self.now_ms
    }

    /// The phase that the draw is in. A draw that is not over is one that
    /// can be carried out.
    pub fn phase(&self) -> (phase: DrawPhase)
        ensures
            phase == self.phase_of(),
            phase != DrawPhase::Done ==> drawable(self.draw_of(), self.now_of()),
    {
        proof {
            use_type_invariant(self);
        }
        self.phase
    }

    /// The event that is being drawn.
    pub fn draw(&self) -> (draw: DrawEvent)
        ensures
            draw == self.draw_of(),
    {
        self.draw
    }

    fn finished(
        self,
        reply: Option<Result<(), ServiceError>>,
        logged: Option<ServiceError>,
    ) -> (step: DrawStep)
        ensures
            step.ends(),
            step.reply == reply,
            step.logged == logged,
            step.task.draw_of() == self.draw_of(),
            step.task.ip_of() == self.ip_of(),
            step.task.now_of() == self.now_of(),
    {
        DrawStep {
            task: DrawTask {
                phase: DrawPhase::Done,
                draw: self.draw,
                ip: self.ip,
                now_ms: self.now_ms,
            },
            action: DrawAction::Finish,
            reply,
            logged,
        }
    }

    fn proceed(
        self,
        phase: DrawPhase,
        action: DrawAction,
        reply: Option<Result<(), ServiceError>>,
    ) -> (step: DrawStep)
        requires
            self.phase_of() != DrawPhase::Done,
        ensures
            step.task.phase_of() == phase,
            step.task.draw_of() == self.draw_of(),
            step.task.ip_of() == self.ip_of(),
            step.task.now_of() == self.now_of(),
            step.action == action,
            step.reply == reply,
            step.logged is None,
    {
        proof {
            use_type_invariant(&self);
        }
        DrawStep {
            task: DrawTask { phase, draw: self.draw, ip: self.ip, now_ms: self.now_ms },
            action,
            reply,
            logged: None,
        }
    }

    /// Takes the draw one step further, given how the outside work that it
    /// waited for ended: with a number, which only the limiter's answer has a
    /// meaning for, or with the text of a failure.
    ///
    /// The client is answered in the step that leaves the limiter unadmitted or
    /// that leaves the commit, and in no other. What follows the commit is
    /// done for the cache and the subscribers alone: its failures are logged
    /// and end the draw, and as long as none occurs the cache is first made
    /// to hold the group, then patched, and then the event is published.
    pub fn draw_step(self, completion: Result<i128, String>) -> (step: DrawStep)
        ensures
            step.task.draw_of() == self.draw_of(),
            step.task.ip_of() == self.ip_of(),
            step.task.now_of() == self.now_of(),
            follows(self.phase_of(), step.task.phase_of()),
            step.reply is Some <==> answers(self.phase_of(), step.task.phase_of()),
            step.logged is Some ==> step.ends() && phase_rank(self.phase_of()) >= 2,
            match self.phase_of() {
                DrawPhase::Gate => match completion {
                    Err(text) => step.ends() && step.reply == Some(
                        Err::<(), ServiceError>(ServiceError::Fatal(text)),
                    ),
                    Ok(reply) => match gate_verdict(reply as int, self.now_of()) {
                        Some(refusal) => step.ends() && step.refuses_with(refusal),
                        None => step.task.phase_of() == DrawPhase::Commit && step.action
                            == DrawAction::Commit(
                            batch_of(
                                self.draw_of().x,
                                self.draw_of().y,
                                self.draw_of().rgb,
                                self.ip_of(),
                                self.now_of(),
                            ),
                        ),
                    },
                },
                DrawPhase::Commit => match completion {
                    Err(text) => step.ends() && step.reply == Some(
                        Err::<(), ServiceError>(ServiceError::Fatal(text)),
                    ),
                    Ok(_) => step.reply matches Some(Ok(_)) && step.task.phase_of()
                        == DrawPhase::ZeroInit && (step.action matches DrawAction::InitGroup(init)
                        && inits_group_of(init, self.draw_of())),
                },
                DrawPhase::ZeroInit => match completion {
                    Err(text) => step.ends() && step.logged == Some(ServiceError::Fatal(text)),
                    Ok(_) => step.task.phase_of() == DrawPhase::Patch && (
                    step.action matches DrawAction::PatchGroup(patch) && patches_tile_of(
                        patch,
                        self.draw_of(),
                    )),
                },
                DrawPhase::Patch => match completion {
                    Err(text) => step.ends() && step.logged == Some(ServiceError::Fatal(text)),
                    Ok(_) => step.task.phase_of() == DrawPhase::Publish && (
                    step.action matches DrawAction::Publish(payload) && payload@ == wire_encode(
                        self.draw_of(),
                    )),
                },
                DrawPhase::Publish => match completion {
                    Err(text) => step.ends() && step.logged == Some(ServiceError::Fatal(text)),
                    Ok(_) => step.ends() && step.logged is None,
                },
                DrawPhase::Done => step.ends() && step.logged is None,
            },
    {
        proof {
            use_type_invariant(&self);
        }
        match self.phase {
            DrawPhase::Gate => match completion {
                Err(text) => self.finished(Some(Err(ServiceError::Fatal(text))), None),
                Ok(reply) => match check_gate_reply(reply, self.now_ms) {
                    Err(refusal) => self.finished(Some(Err(refusal)), None),
                    Ok(()) => {
                        let batch = batch_upsert_tile(
                            self.draw.x,
                            self.draw.y,
                            self.draw.rgb,
                            self.ip.clone(),
                            self.now_ms,
                        );
                        self.proceed(DrawPhase::Commit, DrawAction::Commit(batch), None)
                    },
                },
            },
            DrawPhase::Commit => match completion {
                Err(text) => self.finished(Some(Err(ServiceError::Fatal(text))), None),
                Ok(_) => {
                    let init = init_cached_group(GroupKey::from_point(self.draw.x, self.draw.y));
                    self.proceed(DrawPhase::ZeroInit, DrawAction::InitGroup(init), Some(Ok(())))
                },
            },
            DrawPhase::ZeroInit => match completion {
                Err(text) => self.finished(None, Some(ServiceError::Fatal(text))),
                Ok(_) => {
                    let patch = upsert_cached_group(self.draw);
                    self.proceed(DrawPhase::Patch, DrawAction::PatchGroup(patch), None)
                },
            },
            DrawPhase::Patch => match completion {
                Err(text) => self.finished(None, Some(ServiceError::Fatal(text))),
                Ok(_) => match broadcast_message(self.draw) {
                    Ok(payload) => self.proceed(
                        DrawPhase::Publish,
                        DrawAction::Publish(payload),
                        None,
                    ),
                    Err(e) => self.finished(None, Some(e)),
                },
            },
            DrawPhase::Publish => match completion {
                Err(text) => self.finished(None, Some(ServiceError::Fatal(text))),
                Ok(_) => self.finished(None, None),
            },
            DrawPhase::Done => self.finished(None, None),
        }
    }
}

/// Begins the draw of `draw` by the client `ip` at `now_ms`. A draw that
/// cannot be carried out is refused at once; any other asks the limiter first.
pub fn draw_tile(draw: DrawEvent, ip: String, now_ms: u64) -> (step: DrawStep)
    ensures
        step.task.draw_of() == draw,
        step.task.ip_of() == ip,
        step.task.now_of() == now_ms,
        step.logged is None,
        drawable(draw, now_ms) ==> step.reply is None && step.task.phase_of() == DrawPhase::Gate
            && step.action == DrawAction::CheckGate(
            GateRequest { key: ip, now_ms, threshold_ms: threshold_at(now_ms) },
        ),
        !(addressable(draw.x as int) && addressable(draw.y as int)) ==> step.ends()
            && step.refuses_with(outside_canvas()),
        addressable(draw.x as int) && addressable(draw.y as int) && now_ms > i64::MAX
            ==> step.ends() && step.refuses_with(unrepresentable_now()),
{
    if draw.x < MIN_COORD || draw.y < MIN_COORD {
        let refusal = ServiceError::Forbidden(
            String::from_str("The tile lies outside the canvas."),
        );
        return DrawStep {
            task: DrawTask { phase: DrawPhase::Done, draw, ip, now_ms },
            action: DrawAction::Finish,
            reply: Some(Err(refusal)),
            logged: None,
        };
    }
    if now_ms > i64::MAX as u64 {
        let refusal = ServiceError::Fatal(
            String::from_str("Cannot represent the current time as a timestamp"),
        );
        return DrawStep {
            task: DrawTask { phase: DrawPhase::Done, draw, ip, now_ms },
            action: DrawAction::Finish,
            reply: Some(Err(refusal)),
            logged: None,
        };
    }
    let request = update_placement(ip.clone(), now_ms);
    DrawStep {
        task: DrawTask { phase: DrawPhase::Gate, draw, ip, now_ms },
        action: DrawAction::CheckGate(request),
        reply: None,
        logged: None,
    }
}

/// What the cache knows of a group.
#[derive(Debug, PartialEq)]
pub enum GroupLookup {
    /// The cache holds the buffer of the group.
    Hit(Vec<u8>),
    /// The cache holds nothing: the group has to be read from the store.
    Miss(GroupKey),
}

/// Reads the group `key` through the cache, given what the cache returned
/// for it: a cached buffer is the answer, an empty one sends the reader to
/// the store, and a buffer of any other length is corruption.
pub fn get_group(key: GroupKey, cached: Vec<u8>) -> (res: Result<GroupLookup, ServiceError>)
    ensures
        match cached_group(cached@) {
            Ok(None) => res == Ok::<GroupLookup, ServiceError>(GroupLookup::Miss(key)),
            Ok(Some(_)) => res == Ok::<GroupLookup, ServiceError>(GroupLookup::Hit(cached)),
            Err(corruption) => fails_with(res, corruption),
        },
{
    match get_cached_group(cached)? {
        Some(group) => Ok(GroupLookup::Hit(group.0)),
        None => Ok(GroupLookup::Miss(key)),
    }
}

/// Builds the group `key` from the rows that the store returned for it. The
/// buffer in the result is both the answer to the reader and what the cache
/// is filled with.
pub fn get_group_from_store(key: GroupKey, rows: &Vec<TileRow>) -> (res: Result<
    CacheFill,
    ServiceError,
>)
    ensures
        (forall|i: int| 0 <= i < rows@.len() ==> row_in_group(key, #[trigger] rows@[i])) ==> (
        res matches Ok(fill) && fill.key@ == group_key_text(key.0 as int, key.1 as int)
            && fill.value@ == group_of_rows(key, rows@) && fill.value@.len() == GROUP_LEN),
        (exists|i: int| 0 <= i < rows@.len() && !row_in_group(key, #[trigger] rows@[i]))
            ==> fails_with(res, stray_row()),
{
    let group = get_tile_group(key, rows)?;
    Ok(set_cached_group(key, &group))
}

/// A group in which nothing was drawn is read from the store as a buffer
/// of zeros.
pub proof fn lemma_untouched_group_is_zero(key: GroupKey)
    ensures
        group_of_rows(key, Seq::empty()) == crate::models::zeroed_group(),
        group_of_rows(key, Seq::empty()).len() == GROUP_LEN,
        forall|i: int| 0 <= i < GROUP_LEN ==> group_of_rows(key, Seq::empty())[i] == 0u8,
{
}

/// The rows that a scan returns for `draws` if the store kept every one of
/// them, in their order.
pub open spec fn rows_of_draws(draws: Seq<DrawEvent>) -> Seq<TileRow> {
    Seq::new(draws.len(), |i: int| row_of_draw(draws[i]))
}

/// Whether every draw of `draws` can be carried out and falls into the
/// group `key`.
pub open spec fn draws_in_group(key: GroupKey, draws: Seq<DrawEvent>) -> bool {
    forall|i: int|
        0 <= i < draws.len() ==> addressable((#[trigger] draws[i]).x as int) && addressable(
            draws[i].y as int,
        ) && group_of_draw(draws[i]) == key
}

/// The cache follows the draws: after it took up some draws of one group,
/// starting from nothing, its entry is the buffer into which the rows of
/// those draws fold.
pub proof fn lemma_cache_follows_draws(key: GroupKey, draws: Seq<DrawEvent>)
    requires
        draws.len() > 0,
        draws_in_group(key, draws),
    ensures
        entry_after_draws(None, draws) == Some(group_of_rows(key, rows_of_draws(draws))),
        group_of_rows(key, rows_of_draws(draws)).len() == GROUP_LEN,
    decreases draws.len(),
{
    let draw = draws.last();
    let earlier = draws.drop_last();
    let rows = rows_of_draws(draws);
    assert(rows.drop_last() =~= rows_of_draws(earlier));
    assert(rows.last() == row_of_draw(draw));
    assert(group_of_draw(draw) == key);
    crate::query::lemma_stored_rgb_round_trip(draw.rgb);
    assert forall|i: int| 0 <= i < rows.len() implies row_in_group(key, #[trigger] rows[i]) by {
        assert(group_of_draw(draws[i]) == key);
    }
    crate::query::lemma_group_reads_last_row(key, rows, 0, 0);
    assert(key.0 == group_origin(draw.x as int) && key.1 == group_origin(draw.y as int));
    let dx = draw.x - group_origin(draw.x as int);
    let dy = draw.y - group_origin(draw.y as int);
    assert(group_of_rows(key, rows) == crate::models::packed(
        group_of_rows(key, rows_of_draws(earlier)),
        dx,
        dy,
        draw.rgb,
    ));
    if earlier.len() == 0 {
        assert(entry_after_draws(None, earlier) == None::<Seq<u8>>);
        crate::dict::lemma_upsert_sets_tile(None, draw);
    } else {
        assert(draws_in_group(key, earlier)) by {
            assert forall|i: int| 0 <= i < earlier.len() implies addressable(
                (#[trigger] earlier[i]).x as int,
            ) && addressable(earlier[i].y as int) && group_of_draw(earlier[i]) == key by {
                assert(earlier[i] == draws[i]);
            }
        }
        lemma_cache_follows_draws(key, earlier);
        crate::dict::lemma_upsert_sets_tile(entry_after_draws(None, earlier), draw);
    }
}

/// The store can stand in for the cache: once the entry of a group is lost,
/// the buffer that is rebuilt from the stored rows is the one that the cache
/// held, provided the store gives every tile the colour of its last draw.
pub proof fn lemma_rebuilt_group_equals_cached(
    key: GroupKey,
    draws: Seq<DrawEvent>,
    stored: Seq<TileRow>,
)
    requires
        draws.len() > 0,
        draws_in_group(key, draws),
        forall|i: int| 0 <= i < stored.len() ==> row_in_group(key, #[trigger] stored[i]),
        forall|dx: int, dy: int|
            0 <= dx < crate::models::GROUP_DIM && 0 <= dy < crate::models::GROUP_DIM
                ==> #[trigger] crate::query::colour_at(key, stored, dx, dy)
                == crate::query::colour_at(key, rows_of_draws(draws), dx, dy),
    ensures
        Some(group_of_rows(key, stored)) == entry_after_draws(None, draws),
{
    let rows = rows_of_draws(draws);
    assert forall|i: int| 0 <= i < rows.len() implies row_in_group(key, #[trigger] rows[i]) by {
        assert(group_of_draw(draws[i]) == key);
    }
    lemma_cache_follows_draws(key, draws);
    crate::query::lemma_same_colours_same_group(key, stored, rows);
}

} // verus!
