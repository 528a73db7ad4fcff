//! The command processor: deduplicates newsletter-issue requests through the
//! idempotency store and hands delivery work to the transactional outbox.
//! It never sends mail itself and never blocks on delivery.

use vstd::prelude::*;

use crate::idempotency::{
    finalize_spec, lookup, new_record, store_wf, BeginOutcome, IdempotencyStore, RecV, RespV,
    StoredResponse,
};
use crate::idempotency::{lemma_lookup_push_same, lemma_lookup_update, lemma_find_index_props};
use crate::idempotency::find_index;
use crate::outbox::{
    enqueue_spec, fresh_tasks, lemma_enqueue_all_props, outbox_wf, Outbox, OutboxV, TaskV,
};

verus! {

/// One newsletter issue, immutable once created.
pub struct NewsletterIssue {
    pub id: u64,
    pub title: String,
    pub text_content: String,
    pub html_content: String,
    pub created_at: u64,
}

/// Mathematical model of a newsletter issue.
#[verifier::ext_equal]
pub struct IssueV {
    pub id: u64,
    pub title: Seq<char>,
    pub text_content: Seq<char>,
    pub html_content: Seq<char>,
    pub created_at: u64,
}

impl View for NewsletterIssue {
    type V = IssueV;

    open spec fn view(&self) -> IssueV {
        IssueV {
            id: self.id,
            title: self.title@,
            text_content: self.text_content@,
            html_content: self.html_content@,
            created_at: self.created_at,
        }
    }
}

/// The issue-newsletter command as received from the inbound surface. A
/// field the caller did not supply is `None`.
pub struct IssueCommand {
    pub title: Option<String>,
    pub text_content: Option<String>,
    pub html_content: Option<String>,
    pub idempotency_key: String,
}

/// Mathematical model of the command.
#[verifier::ext_equal]
pub struct CmdV {
    pub title: Option<Seq<char>>,
    pub text_content: Option<Seq<char>>,
    pub html_content: Option<Seq<char>>,
    pub idempotency_key: Seq<char>,
}

impl View for IssueCommand {
    type V = CmdV;

    open spec fn view(&self) -> CmdV {
        CmdV {
            title: match self.title {
                Option::Some(ref t) => Option::Some(t@),
                Option::None => Option::None,
            },
            text_content: match self.text_content {
                Option::Some(ref t) => Option::Some(t@),
                Option::None => Option::None,
            },
            html_content: match self.html_content {
                Option::Some(ref t) => Option::Some(t@),
                Option::None => Option::None,
            },
            idempotency_key: self.idempotency_key@,
        }
    }
}

/// Why a command was rejected before any store interaction.
#[derive(Debug)]
pub enum ValidationError {
    /// The command carries no title.
    MissingTitle,
    /// The command carries neither a plain-text nor an HTML body.
    MissingContent,
}

/// Why an accepted-looking command still failed.
#[derive(Debug)]
pub enum PublishError {
    /// Rejected by validation: no store interaction took place.
    Validation(ValidationError),
    /// Another request holds the same key and has not finalized within the
    /// poll budget; the caller may retry later.
    Conflict,
}

/// A command is valid when it has a title and at least one content body.
pub open spec fn cmd_valid(c: CmdV) -> bool {
    c.title is Some && (c.text_content is Some || c.html_content is Some)
}

/// The fixed, fully deterministic acknowledgement body.
pub open spec fn accepted_body() -> Seq<char> {
    "The newsletter issue has been accepted - emails will go out shortly."@
}

/// The canonical accepted response, identical on first processing and on
/// every replay: a fixed status and body, and no headers beyond what every
/// response carries — nothing about it may vary between submissions.
pub open spec fn accepted_resp() -> RespV {
    RespV { status: 200, headers: Seq::empty(), body: accepted_body() }
}

/// The canonical accepted response as an executable value.
pub fn accepted_response() -> (r: StoredResponse)
    ensures
        r@ == accepted_resp(),
{
    let r = StoredResponse {
        status: 200,
        headers: Vec::new(),
        body: "The newsletter issue has been accepted - emails will go out shortly.".to_owned(),
    };
    proof {
        assert(r@ =~~= accepted_resp());
    }
    r
}

pub open spec fn opt_or_empty(o: Option<Seq<char>>) -> Seq<char> {
    match o {
        Option::Some(s) => s,
        Option::None => Seq::empty(),
    }
}

/// The issue row created for a first-time command.
pub open spec fn new_issue(cmd: CmdV, id: u64, now: u64) -> IssueV {
    IssueV {
        id,
        title: opt_or_empty(cmd.title),
        text_content: opt_or_empty(cmd.text_content),
        html_content: opt_or_empty(cmd.html_content),
        created_at: now,
    }
}

/// Mathematical model of the whole processor-owned state.
#[verifier::ext_equal]
pub struct ProcV {
    pub store: Seq<RecV>,
    pub outbox: OutboxV,
    pub issues: Seq<IssueV>,
    pub next_issue_id: u64,
}

pub open spec fn proc_wf(v: ProcV) -> bool {
    store_wf(v.store) && outbox_wf(v.outbox)
}

/// View of a publish result.
pub open spec fn result_view(r: Result<StoredResponse, PublishError>) -> Result<
    RespV,
    PublishError,
> {
    match r {
        Result::Ok(s) => Result::Ok(s@),
        Result::Err(e) => Result::Err(e),
    }
}

/// What one issue-newsletter request does, atomically: validate; replay a
/// finalized key verbatim; report a still-in-progress key as a conflict;
/// otherwise reserve the key, create the issue, enqueue one task per
/// confirmed address and finalize the canonical response — all in one
/// transition, mirroring the single storage transaction plus finalize.
pub open spec fn publish_spec(
    v: ProcV,
    actor_id: u64,
    cmd: CmdV,
    confirmed: Seq<Seq<char>>,
    now: u64,
) -> (ProcV, Result<RespV, PublishError>) {
    if cmd.title is None {
        (v, Result::Err(PublishError::Validation(ValidationError::MissingTitle)))
    } else if cmd.text_content is None && cmd.html_content is None {
        (v, Result::Err(PublishError::Validation(ValidationError::MissingContent)))
    } else {
        match lookup(v.store, actor_id, cmd.idempotency_key) {
            Option::Some(r) => match r.response {
                Option::Some(p) => (v, Result::Ok(p)),
                Option::None => (v, Result::Err(PublishError::Conflict)),
            },
            Option::None => {
                let s1 = v.store.push(new_record(actor_id, cmd.idempotency_key, now));
                let s2 = finalize_spec(s1, actor_id, cmd.idempotency_key, accepted_resp());
                let v2 = ProcV {
                    store: s2,
                    outbox: enqueue_spec(v.outbox, confirmed, v.next_issue_id, now),
                    issues: v.issues.push(new_issue(cmd, v.next_issue_id, now)),
                    next_issue_id: (v.next_issue_id + 1) as u64,
                };
                (v2, Result::Ok(accepted_resp()))
            },
        }
    }
}

/// The command processor and the state it owns.
pub struct CommandProcessor {
    pub store: IdempotencyStore,
    pub outbox: Outbox,
    pub issues: Vec<NewsletterIssue>,
    pub next_issue_id: u64,
}

impl View for CommandProcessor {
    type V = ProcV;

    open spec fn view(&self) -> ProcV {
        ProcV {
            store: self.store@,
            outbox: self.outbox@,
            issues: self.issues@.map_values(|i: NewsletterIssue| i@),
            next_issue_id: self.next_issue_id,
        }
    }
}

impl CommandProcessor {
    pub open spec fn wf(&self) -> bool {
        proc_wf(self@)
    }

    pub fn new() -> (r: Self)
        ensures
            r.wf(),
            r@.store =~= Seq::<RecV>::empty(),
            r@.outbox.pending =~= Seq::<TaskV>::empty(),
            r@.outbox.leased =~= Seq::<TaskV>::empty(),
            r@.outbox.delivered =~= Seq::<u64>::empty(),
            r@.issues =~= Seq::<IssueV>::empty(),
            r@.next_issue_id == 0,
    {
        let r = CommandProcessor {
            store: IdempotencyStore::new(),
            outbox: Outbox::new(),
            issues: Vec::new(),
            next_issue_id: 0,
        };
        proof {
            assert(r@.issues =~= Seq::<IssueV>::empty());
        }
        r
    }

    /// Handle one issue-newsletter request from actor `actor_id`.
    ///
    /// A rejected command touches nothing. A duplicate key returns the
    /// finalized response byte for byte, or a conflict while the owner is
    /// still in progress. A fresh key atomically reserves itself, records
    /// the issue, enqueues one delivery task per confirmed address and
    /// finalizes the canonical acceptance — the transport is never called.
    pub fn publish_newsletter(
        &mut self,
        actor_id: u64,
        cmd: &IssueCommand,
        confirmed: &Vec<String>,
        now: u64,
    ) -> (r: Result<StoredResponse, PublishError>)
        requires
            old(self).wf(),
            old(self)@.outbox.next_id + confirmed@.len() <= u64::MAX,
            old(self)@.next_issue_id < u64::MAX,
        ensures
            final(self).wf(),
            ({
                let (v2, r2) = publish_spec(
                    old(self)@,
                    actor_id,
                    cmd@,
                    confirmed@.map_values(|s: String| s@),
                    now,
                );
                final(self)@ == v2 && result_view(r) == r2
            }),
    {
        let ghost v0 = self@;
        let ghost recips = confirmed@.map_values(|s: String| s@);
        if cmd.title.is_none() {
            return Result::Err(PublishError::Validation(ValidationError::MissingTitle));
        }
        if cmd.text_content.is_none() && cmd.html_content.is_none() {
            return Result::Err(PublishError::Validation(ValidationError::MissingContent));
        }
        let outcome = self.store.begin(actor_id, &cmd.idempotency_key, now);
        match outcome {
            BeginOutcome::Finalized(resp) => {
                proof {
                    assert(self@ =~~= v0);
                }
                Result::Ok(resp)
            },
            BeginOutcome::InProgress => {
                proof {
                    assert(self@ =~~= v0);
                }
                Result::Err(PublishError::Conflict)
            },
            BeginOutcome::Started => {
                let issue_id = self.next_issue_id;
                let title = match &cmd.title {
                    Option::Some(t) => t.clone(),
                    Option::None => String::new(),
                };
                let text_content = match &cmd.text_content {
                    Option::Some(t) => t.clone(),
                    Option::None => String::new(),
                };
                let html_content = match &cmd.html_content {
                    Option::Some(t) => t.clone(),
                    Option::None => String::new(),
                };
                let ghost issues0 = self@.issues;
                self.issues.push(
                    NewsletterIssue { id: issue_id, title, text_content, html_content, created_at: now },
                );
                proof {
                    assert(self@.issues =~= issues0.push(new_issue(cmd@, issue_id, now)));
                }
                self.outbox.enqueue_many(confirmed, issue_id, now);
                self.next_issue_id = issue_id + 1;
                let response = accepted_response();
                proof {
                    lemma_lookup_push_same(v0.store, new_record(actor_id, cmd@.idempotency_key, now));
                }
                self.store.finalize(actor_id, &cmd.idempotency_key, response);
                let out = accepted_response();
                proof {
                    let (v2, r2) = publish_spec(v0, actor_id, cmd@, recips, now);
                    assert(self@ =~~= v2);
                }
                Result::Ok(out)
            },
        }
    }
}

/// Poll the idempotency store for the response that another request owning
/// the same key is computing, up to `poll_budget` rounds, and replay it
/// verbatim once it appears. A key still in progress when the budget runs
/// out is reported as the retryable conflict — never an infinite wait.
pub fn poll_for_replay(
    store: &IdempotencyStore,
    actor_id: u64,
    key: &String,
    poll_budget: u32,
) -> (r: Result<StoredResponse, PublishError>)
    ensures
        match r {
            Result::Ok(resp) => lookup(store@, actor_id, key@) matches Option::Some(rec)
                && rec.response matches Option::Some(p) && resp@ == p,
            Result::Err(e) => e is Conflict && !(lookup(store@, actor_id, key@)
                matches Option::Some(rec) && rec.response is Some),
        },
{
    let mut i: u32 = 0;
    while i < poll_budget
        invariant
            i <= poll_budget,
        decreases poll_budget - i,
    {
        match store.load(actor_id, key) {
            Option::Some(rec) => {
                match rec.response {
                    Option::Some(p) => {
                        return Result::Ok(p);
                    },
                    Option::None => {},
                }
            },
            Option::None => {},
        }
        i += 1;
    }
    match store.load(actor_id, key) {
        Option::Some(rec) => match rec.response {
            Option::Some(p) => Result::Ok(p),
            Option::None => Result::Err(PublishError::Conflict),
        },
        Option::None => Result::Err(PublishError::Conflict),
    }
}

/// Law: a valid command resubmitted with the same (actor, key) — whatever
/// content, recipient list or time the resubmission carries — receives the
/// very same response, and the whole system state, the delivery-task queue
/// included, is left exactly as the first submission left it.
pub proof fn lemma_resubmission_is_identical(
    v: ProcV,
    actor_id: u64,
    cmd1: CmdV,
    cmd2: CmdV,
    conf1: Seq<Seq<char>>,
    conf2: Seq<Seq<char>>,
    now1: u64,
    now2: u64,
)
    requires
        proc_wf(v),
        cmd_valid(cmd1),
        cmd_valid(cmd2),
        cmd2.idempotency_key == cmd1.idempotency_key,
    ensures
        ({
            let (v1, r1) = publish_spec(v, actor_id, cmd1, conf1, now1);
            let (v2, r2) = publish_spec(v1, actor_id, cmd2, conf2, now2);
            v2 == v1 && r2 == r1
        }),
{
    let key = cmd1.idempotency_key;
    let (v1, r1) = publish_spec(v, actor_id, cmd1, conf1, now1);
    match lookup(v.store, actor_id, key) {
        Option::Some(r) => {},
        Option::None => {
            let rec = new_record(actor_id, key, now1);
            let s1 = v.store.push(rec);
            lemma_lookup_push_same(v.store, rec);
            lemma_find_index_props(s1, actor_id, key);
            let i = find_index(s1, actor_id, key);
            lemma_lookup_update(
                s1,
                actor_id,
                key,
                RecV { response: Option::Some(accepted_resp()), ..s1[i] },
            );
        },
    }
}

/// Law: every request that finds the key finalized reads back one and the
/// same stored response, whatever command content, recipient list or time
/// it carries, and changes nothing.
pub proof fn lemma_replays_agree(
    v: ProcV,
    actor_id: u64,
    cmd1: CmdV,
    cmd2: CmdV,
    conf1: Seq<Seq<char>>,
    conf2: Seq<Seq<char>>,
    now1: u64,
    now2: u64,
)
    requires
        cmd_valid(cmd1),
        cmd_valid(cmd2),
        cmd2.idempotency_key == cmd1.idempotency_key,
        lookup(v.store, actor_id, cmd1.idempotency_key) matches Option::Some(r) && r.response
            is Some,
    ensures
        publish_spec(v, actor_id, cmd1, conf1, now1).1 == publish_spec(
            v,
            actor_id,
            cmd2,
            conf2,
            now2,
        ).1,
        publish_spec(v, actor_id, cmd1, conf1, now1).0 == v,
        publish_spec(v, actor_id, cmd2, conf2, now2).0 == v,
{
}

/// Law: a first-time issuance creates exactly one delivery task per
/// confirmed address — in directory order, all for the fresh issue, each
/// with a zero attempt count — and touches no other task, lease or log; an
/// address not in the confirmed list gets no task. An empty confirmed list
/// leaves the queue untouched while the command still succeeds.
pub proof fn lemma_one_task_per_confirmed_subscriber(
    v: ProcV,
    actor_id: u64,
    cmd: CmdV,
    confirmed: Seq<Seq<char>>,
    now: u64,
)
    requires
        proc_wf(v),
        cmd_valid(cmd),
        lookup(v.store, actor_id, cmd.idempotency_key) is None,
        v.outbox.next_id + confirmed.len() <= u64::MAX,
    ensures
        ({
            let (v1, r1) = publish_spec(v, actor_id, cmd, confirmed, now);
            let f = fresh_tasks(confirmed, v.next_issue_id, now, v.outbox.next_id);
            &&& r1 == Result::Ok::<RespV, PublishError>(accepted_resp())
            &&& f.len() == confirmed.len()
            &&& (forall|i: int|
                0 <= i < f.len() ==> (#[trigger] f[i]).recipient == confirmed[i] && f[i].issue_id
                    == v.next_issue_id && f[i].attempt_count == 0 && f[i].next_attempt_at == now)
            &&& v1.outbox.pending.len() == v.outbox.pending.len() + confirmed.len()
            &&& (forall|x: TaskV|
                v1.outbox.pending.contains(x) <==> (v.outbox.pending.contains(x) || f.contains(
                    x,
                )))
            &&& v1.outbox.leased == v.outbox.leased
            &&& v1.outbox.delivered == v.outbox.delivered
            &&& v1.outbox.dropped == v.outbox.dropped
        }),
{
    lemma_enqueue_all_props(v.outbox.pending, confirmed, v.next_issue_id, now, v.outbox.next_id);
}

} // verus!
