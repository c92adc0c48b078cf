//! What GitHub's webhook leads to.

use crate::config::{Config, ProjectConfig};
use crate::error::{ApiError, UNAUTHORIZED};
use crate::list;
use crate::outside::{self, hex_decode, mac_matches};
use crate::request::Headers;
use crate::text::{self, CharClass};
use vstd::prelude::*;
use vstd::utf8::encode_utf8;

verus! {

/// The part of a push event that decisions depend on.
#[derive(Debug, Clone)]
pub struct PushPayload {
    pub ref_field: String,
    pub repository: PushRepo,
    pub head_commit: Option<HeadCommit>,
    pub commits: Vec<HeadCommit>,
}

/// The repository of a push.
#[derive(Debug, Clone)]
pub struct PushRepo {
    pub full_name: String,
}

/// One commit of a push.
#[derive(Debug, Clone)]
pub struct HeadCommit {
    pub message: String,
}

/// What an accepted event leads to.
#[derive(Debug, Clone)]
pub enum HookAction {
    /// Answer the ping.
    Pong,
    /// Do nothing about an event of this name.
    Ignore(String),
    /// Read the body as a push.
    ReadPush,
}

/// What a push leads to.
#[derive(Debug, Clone, Copy)]
pub enum PushAction<'a> {
    /// Do nothing: no project is built from this branch of this repository.
    NoProject,
    /// Do nothing: the commits ask for that.
    SkipCi,
    /// Build the project.
    Build(&'a ProjectConfig),
}

// ---------------------------------------------------------------------------------------------
// The signature
// ---------------------------------------------------------------------------------------------
/// The hexadecimal part of a signature.
pub open spec fn signature_digits(signature: Seq<char>) -> Seq<char> {
    match text::without_prefix(signature, "sha256="@) {
        Some(d) => d,
        None => signature,
    }
}

/// Whether `res` is the right answer to a request with the given signature and body.
pub open spec fn judges(
    res: Result<(), ApiError>,
    secret: Option<Seq<char>>,
    signature: Option<Seq<char>>,
    body: Seq<u8>,
) -> bool {
    match (secret, signature) {
        (None, _) => res is Ok,
        (Some(_), None) => res matches Err(e) && e.is(UNAUTHORIZED, "missing signature"@),
        (Some(key), Some(sig)) => {
            let digits = signature_digits(sig);
            if outside::is_hex_text(digits) && outside::hex_bytes(digits) == outside::hmac_sha256(
                encode_utf8(key),
                body,
            ) {
                res is Ok
            } else {
                res matches Err(e) && e.is(UNAUTHORIZED, "bad signature"@)
            }
        },
    }
}

/// Lets a request pass whose signature is that of its body. Without a secret every request passes.
pub fn verify_signature(
    secret: Option<&str>,
    signature: Option<&str>,
    body: &[u8],
) -> (res: Result<(), ApiError>)
    ensures
        judges(res, text::opt_slice(secret), text::opt_slice(signature), body@),
{
    let key = match secret {
        Some(s) => s,
        None => {
            return Ok(());
        },
    };
    let sig = match signature {
        Some(s) => s,
        None => {
            return Err(ApiError::new(UNAUTHORIZED, "missing signature"));
        },
    };
    let digits = match text::strip_prefix(sig, "sha256=") {
        Some(d) => d,
        None => sig,
    };
    match hex_decode(digits) {
        Ok(expected) => if mac_matches(key.as_bytes(), body, expected.as_slice()) {
            Ok(())
        } else {
            Err(ApiError::new(UNAUTHORIZED, "bad signature"))
        },
        Err(_) => Err(ApiError::new(UNAUTHORIZED, "bad signature")),
    }
}

// ---------------------------------------------------------------------------------------------
// The event
// ---------------------------------------------------------------------------------------------
/// The name of a request's event; empty where there is none.
pub open spec fn event_name(headers: Headers) -> Seq<char> {
    match headers.github_event {
        Some(e) => e@,
        None => ""@,
    }
}

/// Whether `action` is what an accepted event of the given name leads to.
pub open spec fn acts_on(action: HookAction, event: Seq<char>) -> bool {
    if event == "ping"@ {
        action is Pong
    } else if event == "push"@ {
        action is ReadPush
    } else {
        action matches HookAction::Ignore(name) && name@ == event
    }
}

/// What a request to the webhook leads to.
pub fn handle(config: &Config, headers: &Headers, body: &[u8]) -> (res: Result<
    HookAction,
    ApiError,
>)
    ensures
        judges(
            match res {
                Ok(_) => Ok(()),
                Err(e) => Err(e),
            },
            text::opt_text(config.github.webhook_secret),
            text::opt_text(headers.hub_signature),
            body@,
        ),
        res matches Ok(action) ==> acts_on(action, event_name(*headers)),
{
    match verify_signature(
        text::as_slice(&config.github.webhook_secret),
        text::as_slice(&headers.hub_signature),
        body,
    ) {
        Ok(_) => {},
        Err(e) => {
            return Err(e);
        },
    }
    let event: &str = match &headers.github_event {
        Some(e) => e.as_str(),
        None => "",
    };
    if text::same(event, "ping") {
        return Ok(HookAction::Pong);
    }
    if text::same(event, "push") {
        return Ok(HookAction::ReadPush);
    }
    Ok(HookAction::Ignore(event.to_owned()))
}

// ---------------------------------------------------------------------------------------------
// A push
// ---------------------------------------------------------------------------------------------
/// The branch that was pushed.
pub open spec fn pushed_branch(payload: PushPayload) -> Seq<char> {
    match text::without_prefix(payload.ref_field@, "refs/heads/"@) {
        Some(b) => b,
        None => payload.ref_field@,
    }
}

/// The project that is built from the pushed branch.
pub open spec fn pushed_project(config: Config, payload: PushPayload) -> Option<ProjectConfig> {
    match config.of_repository(payload.repository.full_name@) {
        Some(p) => if p.branch@ == pushed_branch(payload) {
            Some(p)
        } else {
            None
        },
        None => None,
    }
}

/// The messages of a push: those of its commits, or of its head where it lists none.
pub open spec fn messages(payload: PushPayload) -> Seq<Seq<char>> {
    if payload.commits@.len() > 0 {
        payload.commits@.map_values(|c: HeadCommit| c.message@)
    } else {
        match payload.head_commit {
            Some(c) => seq![c.message@],
            None => seq![],
        }
    }
}

/// Whether a message ends with the mark that asks for no build.
pub open spec fn asks_to_skip(message: Seq<char>) -> bool {
    let m = text::ascii_lower(text::trimmed(message, CharClass::Space));
    "[skip ci]"@.is_suffix_of(m) || "[ci skip]"@.is_suffix_of(m)
}

/// Whether a push asks for no build: it has messages, and each of them does.
pub open spec fn skips(payload: PushPayload) -> bool {
    let m = messages(payload);
    m.len() > 0 && forall|i: int| 0 <= i < m.len() ==> asks_to_skip(#[trigger] m[i])
}

/// Whether a message ends with the mark that asks for no build.
fn is_skip(message: &str) -> (res: bool)
    ensures
        res == asks_to_skip(message@),
{
    let m = text::to_ascii_lower(text::trim(message, CharClass::Space));
    text::ends_with(m.as_str(), "[skip ci]") || text::ends_with(m.as_str(), "[ci skip]")
}

/// Whether a push asks for no build.
fn all_skip(payload: &PushPayload) -> (res: bool)
    ensures
        res == skips(*payload),
{
    let ghost all = messages(*payload);
    if payload.commits.len() > 0 {
        let mut i: usize = 0;
        while i < payload.commits.len()
            invariant
                i <= payload.commits@.len(),
                all == messages(*payload),
                payload.commits@.len() > 0,
                forall|k: int| 0 <= k < i ==> asks_to_skip(#[trigger] all[k]),
            decreases payload.commits@.len() - i,
        {
            assert(all[i as int] == payload.commits@[i as int].message@);
            if !is_skip(payload.commits[i].message.as_str()) {
                return false;
            }
            i = i + 1;
        }
        true
    } else {
        match &payload.head_commit {
            Some(c) => {
                assert(all[0] == c.message@);
                is_skip(c.message.as_str())
            },
            None => false,
        }
    }
}

/// Whether `res` is what a push leads to.
pub open spec fn answers_push(res: PushAction, config: Config, payload: PushPayload) -> bool {
    match pushed_project(config, payload) {
        None => res is NoProject,
        Some(p) => if skips(payload) {
            res is SkipCi
        } else {
            res matches PushAction::Build(q) && *q == p
        },
    }
}

/// What a push leads to.
pub fn decide_push<'a>(config: &'a Config, payload: &PushPayload) -> (res: PushAction<'a>)
    ensures
        answers_push(res, *config, *payload),
{
    let branch = match text::strip_prefix(payload.ref_field.as_str(), "refs/heads/") {
        Some(b) => b,
        None => payload.ref_field.as_str(),
    };
    match config.project_for_full_name(payload.repository.full_name.as_str()) {
        Some(p) => if !text::same(p.branch.as_str(), branch) {
            PushAction::NoProject
        } else if all_skip(payload) {
            PushAction::SkipCi
        } else {
            PushAction::Build(p)
        },
        None => PushAction::NoProject,
    }
}

// ---------------------------------------------------------------------------------------------
// Laws
// ---------------------------------------------------------------------------------------------
/// The signature that GitHub sends for a body, under the shared secret, is accepted.
pub proof fn law_signature_accepted(
    res: Result<(), ApiError>,
    secret: Seq<char>,
    body: Seq<u8>,
)
    requires
        judges(
            res,
            Some(secret),
            Some(
                "sha256="@ + outside::hex_text(outside::hmac_sha256(encode_utf8(secret), body)),
            ),
            body,
        ),
    ensures
        res is Ok,
{
    let code = outside::hmac_sha256(encode_utf8(secret), body);
    let sig = "sha256="@ + outside::hex_text(code);
    outside::law_hex_round_trip(code);
    assert("sha256="@.is_prefix_of(sig)) by {
        assert(sig.take("sha256="@.len() as int) =~= "sha256="@);
    }
    assert(sig.skip("sha256="@.len() as int) =~= outside::hex_text(code));
}

/// A body whose signature is that of another body is refused with 401, unless the codes collide.
pub proof fn law_other_body_refused(
    res: Result<(), ApiError>,
    secret: Seq<char>,
    body: Seq<u8>,
    other: Seq<u8>,
)
    requires
        judges(
            res,
            Some(secret),
            Some(outside::hex_text(outside::hmac_sha256(encode_utf8(secret), other))),
            body,
        ),
        outside::hmac_sha256(encode_utf8(secret), body) != outside::hmac_sha256(
            encode_utf8(secret),
            other,
        ),
    ensures
        res matches Err(e) && e.is(UNAUTHORIZED, "bad signature"@),
{
    let code = outside::hmac_sha256(encode_utf8(secret), other);
    let sig = outside::hex_text(code);
    outside::law_hex_round_trip(code);
    reveal_strlit("sha256=");
    if "sha256="@.is_prefix_of(sig) {
        assert(sig[0] == "sha256="@[0]);
        assert(outside::is_hex_digit(sig[0]));
    }
}

/// One commit that does not ask for it is enough for a push not to be skipped, and so is a push
/// without messages.
pub proof fn law_one_commit_builds(payload: PushPayload, i: int)
    requires
        messages(payload).len() == 0 || (0 <= i < messages(payload).len() && !asks_to_skip(
            messages(payload)[i],
        )),
    ensures
        !skips(payload),
{
}

/// The branch that was pushed is all that follows `refs/heads/`, slashes included; a reference that
/// is not of a branch stands for itself.
pub proof fn law_pushed_branch(payload: PushPayload, b: Seq<char>)
    ensures
        payload.ref_field@ == "refs/heads/"@ + b ==> pushed_branch(payload) == b,
        !"refs/heads/"@.is_prefix_of(payload.ref_field@) ==> pushed_branch(payload)
            == payload.ref_field@,
{
    text::law_prefix_taken("refs/heads/"@, b);
}

/// Of the projects of the pushed repository, the first one that is configured is built, exactly when
/// its branch is the pushed one; unless the commits ask for no build.
pub proof fn law_push_builds_its_branch(
    res: PushAction,
    config: Config,
    payload: PushPayload,
    b: Seq<char>,
    i: int,
)
    requires
        answers_push(res, config, payload),
        payload.ref_field@ == "refs/heads/"@ + b,
        0 <= i < config.projects@.len(),
        text::opt_text(config.projects@[i].github_full_name) == Some(
            payload.repository.full_name@,
        ),
        forall|j: int|
            0 <= j < i ==> text::opt_text((#[trigger] config.projects@[j]).github_full_name) != Some(
                payload.repository.full_name@,
            ),
    ensures
        config.projects@[i].branch@ != b <==> res is NoProject,
        config.projects@[i].branch@ == b && !skips(payload) ==> (res matches PushAction::Build(q)
            && *q == config.projects@[i]),
        config.projects@[i].branch@ == b && skips(payload) ==> res is SkipCi,
{
    law_pushed_branch(payload, b);
    list::law_first_found(
        config.projects@,
        |p: ProjectConfig|
            text::opt_text(p.github_full_name) == Some(payload.repository.full_name@),
        i,
    );
}

/// A push of a repository that no project names builds nothing.
pub proof fn law_unknown_repository_ignored(
    res: PushAction,
    config: Config,
    payload: PushPayload,
)
    requires
        answers_push(res, config, payload),
        forall|j: int|
            0 <= j < config.projects@.len() ==> text::opt_text(
                (#[trigger] config.projects@[j]).github_full_name,
            ) != Some(payload.repository.full_name@),
    ensures
        res is NoProject,
{
    list::lemma_find_first(
        config.projects@,
        |p: ProjectConfig|
            text::opt_text(p.github_full_name) == Some(payload.repository.full_name@),
    );
    if let Some(p) = config.of_repository(payload.repository.full_name@) {
        let j = choose|j: int| 0 <= j < config.projects@.len() && config.projects@[j] == p;
        assert(config.projects@[j] == p);
    }
}

/// A push is skipped when it lists commits and the message of each of them asks for that; where it
/// lists none, when that of its head does.
pub proof fn law_every_commit_skips(payload: PushPayload)
    ensures
        payload.commits@.len() > 0 ==> (skips(payload) <==> forall|i: int|
            0 <= i < payload.commits@.len() ==> asks_to_skip(
                (#[trigger] payload.commits@[i]).message@,
            )),
        payload.commits@.len() == 0 && payload.head_commit is Some ==> skips(payload)
            == asks_to_skip(payload.head_commit->0.message@),
        payload.commits@.len() == 0 && payload.head_commit is None ==> !skips(payload),
{
    let m = messages(payload);
    if payload.commits@.len() > 0 {
        assert(forall|i: int|
            0 <= i < m.len() ==> m[i] == (#[trigger] payload.commits@[i]).message@);
        assert(m.len() == payload.commits@.len());
        if skips(payload) {
            assert forall|i: int| 0 <= i < payload.commits@.len() implies asks_to_skip(
                (#[trigger] payload.commits@[i]).message@,
            ) by {
                assert(asks_to_skip(m[i]));
            }
        }
        if forall|i: int|
            0 <= i < payload.commits@.len() ==> asks_to_skip(
                (#[trigger] payload.commits@[i]).message@,
            ) {
            assert forall|i: int| 0 <= i < m.len() implies asks_to_skip(#[trigger] m[i]) by {
                assert(m[i] == payload.commits@[i].message@);
            }
        }
    } else if let Some(c) = payload.head_commit {
        assert(m[0] == c.message@);
    }
}

/// A mark at the end of a message, in capitals or not, asks for no build; white space behind it does
/// not matter. A mark that other text follows does not.
pub proof fn law_skip_marks(said: Seq<char>, mark: Seq<char>, space: Seq<char>, other: Seq<char>)
    requires
        text::ascii_lower(mark) == "[skip ci]"@ || text::ascii_lower(mark) == "[ci skip]"@,
        said.len() > 0 ==> !text::is_space(said[0]),
        forall|k: int| 0 <= k < space.len() ==> text::is_space(#[trigger] space[k]),
        text::trimmed(other, CharClass::Space).len() > 0,
        text::trimmed(other, CharClass::Space).last() != ']',
    ensures
        asks_to_skip(said + mark + space),
        !asks_to_skip(other),
{
    reveal_strlit("[skip ci]");
    reveal_strlit("[ci skip]");
    let low = text::ascii_lower(mark);
    let s = said + mark;
    assert(low.len() == mark.len());
    assert("[skip ci]"@.len() == 9 && "[ci skip]"@.len() == 9);
    assert(low[0] == '[' && low[8] == ']');
    assert(low[0] == text::ascii_lower_char(mark[0]));
    assert(low[8] == text::ascii_lower_char(mark[8]));
    assert(s.last() == mark[8]);
    assert(s[0] == if said.len() > 0 {
        said[0]
    } else {
        mark[0]
    });
    text::law_trimmed(seq![], s, space, CharClass::Space);
    assert(seq![] + s + space =~= said + mark + space);
    let m = text::ascii_lower(s);
    assert(m.subrange(m.len() - 9, m.len() as int) =~= low);
    let o = text::ascii_lower(text::trimmed(other, CharClass::Space));
    assert(o.last() == text::ascii_lower_char(text::trimmed(other, CharClass::Space).last()));
    if "[skip ci]"@.is_suffix_of(o) {
        assert(o.subrange(o.len() - 9, o.len() as int)[8] == "[skip ci]"@[8]);
    }
    if "[ci skip]"@.is_suffix_of(o) {
        assert(o.subrange(o.len() - 9, o.len() as int)[8] == "[ci skip]"@[8]);
    }
}

/// A message that asks for no build holds one of the two marks.
pub proof fn law_no_mark_no_skip(message: Seq<char>)
    requires
        asks_to_skip(message),
    ensures
        ({
            let m = text::ascii_lower(text::trimmed(message, CharClass::Space));
            text::holds_text(m, "[skip ci]"@) || text::holds_text(m, "[ci skip]"@)
        }),
{
    let m = text::ascii_lower(text::trimmed(message, CharClass::Space));
    let k = if "[skip ci]"@.is_suffix_of(m) {
        "[skip ci]"@.len()
    } else {
        "[ci skip]"@.len()
    };
    assert(m.subrange(m.len() - k, m.len() - k + k) =~= m.subrange(m.len() - k, m.len() as int));
}

/// With a secret, a request without a signature is refused with 401, and so is one whose signature is
/// no hexadecimal text; a signature may also come without its prefix. Without a secret every request
/// passes.
pub proof fn law_unsigned_refused(
    res: Result<(), ApiError>,
    secret: Option<Seq<char>>,
    signature: Option<Seq<char>>,
    body: Seq<u8>,
)
    requires
        judges(res, secret, signature, body),
    ensures
        secret is None ==> res is Ok,
        secret is Some && signature is None ==> (res matches Err(e) && e.status == 401),
        secret is Some && (signature matches Some(s) && s.len() > 7 && !outside::is_hex_digit(
            s.last(),
        )) ==> (res matches Err(e) && e.status == 401),
        secret is Some && signature == Some(
            outside::hex_text(outside::hmac_sha256(encode_utf8(secret->0), body)),
        ) ==> res is Ok,
{
    reveal_strlit("sha256=");
    if secret is Some && signature is Some {
        let s = signature->0;
        let d = signature_digits(s);
        let code = outside::hmac_sha256(encode_utf8(secret->0), body);
        let h = outside::hex_text(code);
        outside::law_hex_round_trip(code);
        if s.len() > 7 && !outside::is_hex_digit(s.last()) {
            assert(d.last() == s.last());
            assert(!outside::is_hex_text(d));
        }
        if s == h && "sha256="@.is_prefix_of(s) {
            assert(s.subrange(0, 7)[0] == "sha256="@[0]);
            assert(outside::is_lower_hex_digit(h[0]));
        }
    }
}

/// A ping is answered, a push is read, and every other event is ignored; so is one without a name.
pub proof fn law_events(action: HookAction, headers: Headers)
    requires
        acts_on(action, event_name(headers)),
    ensures
        action is Pong <==> (headers.github_event matches Some(e) && e@ == "ping"@),
        action is ReadPush <==> (headers.github_event matches Some(e) && e@ == "push"@),
        headers.github_event is None ==> action is Ignore,
        action matches HookAction::Ignore(name) ==> (headers.github_event matches Some(e) ==> name@
            == e@),
{
    reveal_strlit("");
    reveal_strlit("ping");
    reveal_strlit("push");
    assert("ping"@[1] != "push"@[1]);
    assert(""@.len() != "ping"@.len() && ""@.len() != "push"@.len());
}

} // verus!
