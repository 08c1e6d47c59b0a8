//! The checks of a hosted cache: its token, and whether its services answer.
use vstd::prelude::*;

use crate::config::CacheConfig;
use crate::deep::deep;
use crate::digest::{push_text, utf8};
use crate::doctor::{check_fail, check_ok, check_skipped, fail, ok, skipped, CheckStatus, DoctorCheck, DoctorCheckModel};
use crate::report::{host_of, monad_host};
use crate::strmap::StrMap;
use crate::text::{cat, cat3, cat4, cat5, copy, decimal, lower_of, number, split, split_on, starts_with, texts, to_lower};

verus! {

broadcast use {crate::deep::group_deep, crate::deep::lemma_take_next, crate::deep::lemma_take_all};

/// The bytes that a base64url text without padding stands for, or why it is not one.
pub uninterp spec fn base64url_decoded(text: Seq<char>) -> Result<Seq<u8>, Seq<char>>;

/// `Engine::decode` of `base64`'s `URL_SAFE_NO_PAD`: the bytes that a text stands for, or what the
/// error says.
#[verifier::external_body]
fn base64url_decode(text: &str) -> (r: Result<Vec<u8>, String>)
    ensures
        match r {
            Ok(bytes) => base64url_decoded(text@) == Ok::<Seq<u8>, Seq<char>>(bytes@),
            Err(e) => base64url_decoded(text@) == Err::<Seq<u8>, Seq<char>>(e@),
        },
{
    base64::Engine::decode(&base64::engine::general_purpose::URL_SAFE_NO_PAD, text).map_err(|e| e.to_string())
}

/// The payload segment of a token, or what is wrong with its shape.
pub open spec fn payload_segment(jwt: Seq<char>) -> Result<Seq<char>, Seq<char>> {
    let parts = split_on(jwt, '.');
    if parts.len() < 2 {
        Err("token missing payload segment"@)
    } else if parts.len() < 3 {
        Err("token missing signature segment"@)
    } else if parts.len() > 3 {
        Err("token has more than 3 segments"@)
    } else {
        Ok(parts[1])
    }
}

/// The payload segment of a token, or what is wrong with its shape.
pub fn jwt_segment(jwt: &str) -> (r: Result<String, String>)
    ensures
        match r {
            Ok(s) => payload_segment(jwt@) == Ok::<Seq<char>, Seq<char>>(s@),
            Err(e) => payload_segment(jwt@) == Err::<Seq<char>, Seq<char>>(e@),
        },
{
    let parts = split(jwt, '.');
    assert(texts(parts@).len() == parts@.len());
    if parts.len() < 2 {
        Err(copy("token missing payload segment"))
    } else if parts.len() < 3 {
        Err(copy("token missing signature segment"))
    } else if parts.len() > 3 {
        Err(copy("token has more than 3 segments"))
    } else {
        assert(texts(parts@)[1] == parts@[1]@);
        Ok(copy(parts[1].as_str()))
    }
}

/// The payload of a token, from its segment and what decoding that gave.
pub open spec fn payload_of(segment: Result<Seq<char>, Seq<char>>, decoded: Result<Seq<u8>, Seq<char>>) -> Result<
    Seq<u8>,
    Seq<char>,
> {
    match segment {
        Err(e) => Err(e),
        Ok(_) => match decoded {
            Ok(bytes) => Ok(bytes),
            Err(e) => Err("payload is not valid base64url: "@ + e),
        },
    }
}

/// The payload of a token, or why it cannot be had. The signature is not verified.
pub fn jwt_payload(jwt: &str) -> (r: Result<Vec<u8>, String>)
    ensures
        ({
            let segment = payload_segment(jwt@);
            let want = payload_of(segment, base64url_decoded(segment->Ok_0));
            match r {
                Ok(bytes) => want == Ok::<Seq<u8>, Seq<char>>(bytes@),
                Err(e) => want == Err::<Seq<u8>, Seq<char>>(e@),
            }
        }),
{
    match jwt_segment(jwt) {
        Ok(s) => decoded_payload(base64url_decode(s.as_str())),
        Err(e) => Err(e),
    }
}

/// The payload of a well-shaped token, from what decoding its segment gave.
pub fn decoded_payload(decoded: Result<Vec<u8>, String>) -> (r: Result<Vec<u8>, String>)
    ensures
        match decoded {
            Ok(bytes) => r == Ok::<Vec<u8>, String>(bytes),
            Err(e) => r is Err && r->Err_0@ == "payload is not valid base64url: "@ + e@,
        },
{
    match decoded {
        Ok(bytes) => Ok(bytes),
        Err(e) => Err(cat("payload is not valid base64url: ", e.as_str())),
    }
}

/// What is said of a payload that holds no claims.
pub fn claims_error(e: &str) -> (r: String)
    ensures
        r@ == "payload JSON does not match Claims: "@ + e@,
{
    cat("payload JSON does not match Claims: ", e)
}

/// What a token claims.
#[derive(Debug)]
pub struct Claims {
    pub iss: String,
    pub team_id: String,
    /// The name of the scope.
    pub scope: String,
    pub label: String,
    /// When the token expires, in seconds since 1970.
    pub exp: u64,
}

/// What a service answered to a request.
#[derive(Debug)]
pub enum Reply {
    Status(u16),
    /// There was no answer; why.
    Unreachable(String),
}

/// What the cloud checks read.
#[derive(Debug)]
pub struct CloudFacts {
    /// The claims of the token, or why they cannot be had.
    pub claims: Result<Claims, String>,
    /// The time, in seconds since 1970.
    pub now: u64,
    /// What the cache answered; not read where its health URL cannot be derived.
    pub cache_reply: Reply,
    /// What the service at [`API_HEALTH_URL`] answered.
    pub api_reply: Reply,
}

/// The health URL of the control plane.
pub const API_HEALTH_URL: &'static str = "https://api.monad.build/v1/healthz";

/// How to reach the hosted cache.
#[derive(Debug)]
pub struct CloudAccess {
    pub url: String,
    /// The variable that holds the token.
    pub token_env: String,
    pub token: String,
}

#[verifier::ext_equal]
pub struct CloudAccessModel {
    pub url: Seq<char>,
    pub token_env: Seq<char>,
    pub token: Seq<char>,
}

impl DeepView for CloudAccess {
    type V = CloudAccessModel;

    open spec fn deep_view(&self) -> CloudAccessModel {
        CloudAccessModel { url: self.url@, token_env: self.token_env@, token: self.token@ }
    }
}

/// How to reach the hosted cache, or the check that says why the others are not made.
pub open spec fn gate_of(c: CacheConfig, env: Map<Seq<char>, Seq<char>>) -> Result<
    CloudAccessModel,
    DoctorCheckModel,
> {
    match c.remote {
        None => Err(
            skipped("cloud.remote"@, "[cache] remote not configured — cloud checks skipped"@),
        ),
        Some(u) => if !"monad://"@.is_prefix_of(u@) {
            Err(
                skipped(
                    "cloud.remote"@,
                    "[cache] remote is "@ + u@ + ", not monad:// — cloud checks skipped"@,
                ),
            )
        } else {
            match c.remote_token_env {
                Some(var) if var@.len() > 0 => if env.contains_key(var@) && env[var@].len() > 0 {
                    Ok(CloudAccessModel { url: u@, token_env: var@, token: env[var@] })
                } else {
                    Err(fail("cloud.token.env"@, "$"@ + var@ + " is unset or empty"@))
                },
                _ => Err(
                    fail(
                        "cloud.token.env"@,
                        "[cache] remote_token_env not set — name the env var holding your JWT"@,
                    ),
                ),
            }
        },
    }
}

/// How to reach the hosted cache, or the check that says why the others are not made.
pub fn cloud_gate(c: &CacheConfig, env: &StrMap<String>) -> (r: Result<CloudAccess, DoctorCheck>)
    ensures
        match r {
            Ok(a) => gate_of(*c, env@) == Ok::<CloudAccessModel, DoctorCheckModel>(a.deep_view()),
            Err(e) => gate_of(*c, env@) == Err::<CloudAccessModel, DoctorCheckModel>(e.deep_view()),
        },
{
    let u = match &c.remote {
        Some(u) => u.as_str(),
        None => {
            return Err(
                check_skipped(
                    "cloud.remote",
                    copy("[cache] remote not configured — cloud checks skipped"),
                ),
            );
        },
    };
    if !starts_with(u, "monad://") {
        return Err(
            check_skipped(
                "cloud.remote",
                cat3("[cache] remote is ", u, ", not monad:// — cloud checks skipped"),
            ),
        );
    }
    if let Some(var) = &c.remote_token_env {
        if !var.as_str().is_empty() {
            if let Some(token) = env.get(var.as_str()) {
                if !token.as_str().is_empty() {
                    return Ok(
                        CloudAccess {
                            url: copy(u),
                            token_env: copy(var.as_str()),
                            token: copy(token.as_str()),
                        },
                    );
                }
            }
            return Err(check_fail("cloud.token.env", cat3("$", var.as_str(), " is unset or empty")));
        }
    }
    Err(
        check_fail(
            "cloud.token.env",
            copy("[cache] remote_token_env not set — name the env var holding your JWT"),
        ),
    )
}

/// The checks of a token's claims, or of why they cannot be had.
pub open spec fn claim_checks(claims: Result<Claims, String>, now: u64) -> Seq<DoctorCheckModel> {
    match claims {
        Err(e) => seq![fail("cloud.token.claims"@, e@)],
        Ok(c) => seq![
            ok(
                "cloud.token.claims"@,
                "iss="@ + c.iss@ + " team_id="@ + c.team_id@ + " scope="@ + lower_of(c.scope@) + " label="@
                    + c.label@,
            ),
            if c.exp <= now {
                fail(
                    "cloud.token.expiry"@,
                    "token expired at unix "@ + decimal(c.exp as nat) + " (now: "@ + decimal(now as nat)
                        + ") — re-mint at app.monad.build/tokens"@,
                )
            } else {
                ok(
                    "cloud.token.expiry"@,
                    "expires unix "@ + decimal(c.exp as nat) + " (~"@ + decimal(
                        ((c.exp - now) / 86_400) as nat,
                    ) + " days from now)"@,
                )
            },
        ],
    }
}

/// The checks of a token's claims.
pub fn check_claims(claims: &Result<Claims, String>, now: u64) -> (r: Vec<DoctorCheck>)
    ensures
        r.deep_view() == claim_checks(*claims, now),
{
    let mut checks: Vec<DoctorCheck> = Vec::new();
    match claims {
        Err(e) => {
            checks.push(check_fail("cloud.token.claims", copy(e.as_str())));
        },
        Ok(c) => {
            let scope = to_lower(c.scope.as_str());
            let head = cat5("iss=", c.iss.as_str(), " team_id=", c.team_id.as_str(), " scope=");
            checks.push(
                check_ok(
                    "cloud.token.claims",
                    cat4(head.as_str(), scope.as_str(), " label=", c.label.as_str()),
                ),
            );
            let exp = number(c.exp);
            if c.exp <= now {
                let at = number(now);
                checks.push(
                    check_fail(
                        "cloud.token.expiry",
                        cat5(
                            "token expired at unix ",
                            exp.as_str(),
                            " (now: ",
                            at.as_str(),
                            ") — re-mint at app.monad.build/tokens",
                        ),
                    ),
                );
            } else {
                let days = number((c.exp - now) / 86_400);
                checks.push(
                    check_ok(
                        "cloud.token.expiry",
                        cat5("expires unix ", exp.as_str(), " (~", days.as_str(), " days from now)"),
                    ),
                );
            }
        },
    }
    assert(deep(checks@) =~= claim_checks(*claims, now));
    checks
}

/// The health URL of a hosted cache, or why there is none.
pub open spec fn health_url(monad_url: Seq<char>) -> Result<Seq<char>, Seq<char>> {
    if !"monad://"@.is_prefix_of(monad_url) {
        Err("missing monad:// prefix"@)
    } else {
        match monad_host(monad_url) {
            Some(host) => Ok("https://"@ + host + "/health"@),
            None => Err("URL has no host"@),
        }
    }
}

/// The health URL of a hosted cache, or why there is none.
pub fn cache_health_url(monad_url: &str) -> (r: Result<String, String>)
    ensures
        match r {
            Ok(u) => health_url(monad_url@) == Ok::<Seq<char>, Seq<char>>(u@),
            Err(e) => health_url(monad_url@) == Err::<Seq<char>, Seq<char>>(e@),
        },
{
    if !starts_with(monad_url, "monad://") {
        return Err(copy("missing monad:// prefix"));
    }
    match host_of(monad_url) {
        Some(host) => Ok(cat3("https://", host.as_str(), "/health")),
        None => Err(copy("URL has no host")),
    }
}

/// The check of a service's answer.
pub open spec fn reply_check(name: Seq<char>, url: Seq<char>, reply: Reply) -> DoctorCheckModel {
    match reply {
        Reply::Status(status) => {
            let detail = "GET "@ + url + " → "@ + decimal(status as nat);
            if 200 <= status < 300 {
                ok(name, detail)
            } else {
                fail(name, detail)
            }
        },
        Reply::Unreachable(e) => fail(name, "GET "@ + url + " failed: "@ + e@),
    }
}

/// The check of a service's answer.
pub fn check_reply(name: &str, url: &str, reply: &Reply) -> (r: DoctorCheck)
    ensures
        r.deep_view() == reply_check(name@, url@, *reply),
{
    match reply {
        Reply::Status(status) => {
            let n = number(*status as u64);
            let detail = cat4("GET ", url, " → ", n.as_str());
            if 200 <= *status && *status < 300 {
                check_ok(name, detail)
            } else {
                check_fail(name, detail)
            }
        },
        Reply::Unreachable(e) => check_fail(name, cat4("GET ", url, " failed: ", e.as_str())),
    }
}

/// The cloud checks, in order: the token, its claims, the cache, the control plane; one alone where
/// there is no token to look at.
pub open spec fn cloud_checks(c: CacheConfig, env: Map<Seq<char>, Seq<char>>, facts: Option<CloudFacts>) -> Seq<
    DoctorCheckModel,
> {
    match gate_of(c, env) {
        Err(e) => seq![e],
        Ok(a) => {
            let f = facts->0;
            seq![
                ok(
                    "cloud.token.env"@,
                    "$"@ + a.token_env + " is set ("@ + decimal(utf8(a.token).len()) + " chars)"@,
                ),
            ] + claim_checks(f.claims, f.now) + seq![
                match health_url(a.url) {
                    Ok(u) => reply_check("cloud.cache.health"@, u, f.cache_reply),
                    Err(e) => fail(
                        "cloud.cache.health"@,
                        "could not derive health URL from "@ + a.url + ": "@ + e,
                    ),
                },
                reply_check("cloud.api.health"@, API_HEALTH_URL@, f.api_reply),
            ]
        },
    }
}

/// The cloud checks.
pub fn check_cloud(c: &CacheConfig, env: &StrMap<String>, facts: &Option<CloudFacts>) -> (r: Vec<DoctorCheck>)
    requires
        gate_of(*c, env@) is Ok ==> facts is Some,
    ensures
        r.deep_view() == cloud_checks(*c, env@, *facts),
{
    let mut checks: Vec<DoctorCheck> = Vec::new();
    let a = match cloud_gate(c, env) {
        Ok(a) => a,
        Err(e) => {
            checks.push(e);
            return checks;
        },
    };
    if let Some(f) = facts {
        let mut bytes: Vec<u8> = Vec::new();
        push_text(&mut bytes, a.token.as_str());
        let n = number(bytes.len() as u64);
        checks.push(
            check_ok(
                "cloud.token.env",
                cat5("$", a.token_env.as_str(), " is set (", n.as_str(), " chars)"),
            ),
        );
        let mut more = check_claims(&f.claims, f.now);
        checks.append(&mut more);
        checks.push(
            match cache_health_url(a.url.as_str()) {
                Ok(u) => check_reply("cloud.cache.health", u.as_str(), &f.cache_reply),
                Err(e) => check_fail(
                    "cloud.cache.health",
                    cat4("could not derive health URL from ", a.url.as_str(), ": ", e.as_str()),
                ),
            },
        );
        checks.push(check_reply("cloud.api.health", API_HEALTH_URL, &f.api_reply));
        assert(deep(checks@) =~= cloud_checks(*c, env@, *facts));
    }
    checks
}

/// A token has a payload if and only if it is three parts with a dot between each two; the payload is the
/// second.
pub proof fn law_shape_of_a_token(a: Seq<char>, b: Seq<char>, c: Seq<char>)
    requires
        !a.contains('.'),
        !b.contains('.'),
        !c.contains('.'),
    ensures
        payload_segment(a + "."@ + b + "."@ + c) == Ok::<Seq<char>, Seq<char>>(b),
        payload_segment(a + "."@ + b) is Err,
        payload_segment(a) is Err,
        forall|d: Seq<char>| (#[trigger] payload_segment(a + "."@ + b + "."@ + c + "."@ + d)) is Err,
{
    reveal_strlit(".");
    lemma_split_once(c);
    lemma_split_once(b);
    lemma_split_once(a);
    lemma_split_more(b, c);
    lemma_split_more(a, b + "."@ + c);
    lemma_split_more(a, b);
    assert(a + "."@ + b + "."@ + c =~= a + "."@ + (b + "."@ + c));
    assert forall|d: Seq<char>| (#[trigger] payload_segment(a + "."@ + b + "."@ + c + "."@ + d)) is Err by {
        lemma_split_more(c, d);
        lemma_split_more(b, c + "."@ + d);
        lemma_split_more(a, b + "."@ + (c + "."@ + d));
        assert(a + "."@ + b + "."@ + c + "."@ + d =~= a + "."@ + (b + "."@ + (c + "."@ + d)));
        crate::text::lemma_find(d, '.');
        assert(split_on(d, '.').len() >= 1);
    }
}

proof fn lemma_split_once(s: Seq<char>)
    requires
        !s.contains('.'),
    ensures
        split_on(s, '.') == seq![s],
{
    crate::text::lemma_find(s, '.');
}

proof fn lemma_split_more(s: Seq<char>, t: Seq<char>)
    requires
        !s.contains('.'),
    ensures
        split_on(s + "."@ + t, '.') == seq![s] + split_on(t, '.'),
{
    reveal_strlit(".");
    let all = s + "."@ + t;
    crate::text::lemma_find_is(all, '.', s.len() as int);
    assert(all.take(s.len() as int) =~= s);
    assert(all.skip(s.len() as int + 1) =~= t);
}

/// The hosted cache is asked if and only if the remote cache is one, a variable is named for its token, and
/// that variable has a value; the token is that value. Without a hosted cache the checks are left out; without
/// a token they fail.
pub proof fn law_when_the_cloud_is_asked(c: CacheConfig, env: Map<Seq<char>, Seq<char>>)
    ensures
        gate_of(c, env) is Ok <==> {
            &&& c.remote matches Some(u) && "monad://"@.is_prefix_of(u@)
            &&& c.remote_token_env matches Some(v) && v@.len() > 0 && env.contains_key(v@) && env[v@].len() > 0
        },
        gate_of(c, env) matches Ok(a) ==> (c.remote matches Some(u) && a.url == u@) && (c.remote_token_env matches Some(
            v,
        ) && a.token_env == v@ && a.token == env[v@]),
        gate_of(c, env) matches Err(e) ==> (e.status == CheckStatus::Skipped <==> !(c.remote matches Some(u)
            && "monad://"@.is_prefix_of(u@))),
        gate_of(c, env) matches Err(e) ==> (e.status == CheckStatus::Fail <==> (c.remote matches Some(u)
            && "monad://"@.is_prefix_of(u@))),
{
}

/// A token is in order if and only if its claims can be read and it expires later than now.
pub proof fn law_expired_tokens_fail(claims: Result<Claims, String>, now: u64)
    ensures
        claims is Err ==> claim_checks(claims, now).len() == 1 && claim_checks(claims, now)[0].status
            == CheckStatus::Fail,
        claims matches Ok(c) ==> {
            &&& claim_checks(claims, now).len() == 2
            &&& claim_checks(claims, now)[0].status == CheckStatus::Pass
            &&& claim_checks(claims, now)[1].status == CheckStatus::Pass <==> c.exp > now
            &&& claim_checks(claims, now)[1].status == CheckStatus::Fail <==> c.exp <= now
        },
{
}

/// A service is well if and only if it answers with a status from 200 to 299.
pub proof fn law_when_a_service_is_well(name: Seq<char>, url: Seq<char>, reply: Reply)
    ensures
        reply_check(name, url, reply).status == CheckStatus::Pass <==> (reply matches Reply::Status(s) && 200 <= s
            <= 299),
        reply_check(name, url, reply).status == CheckStatus::Fail <==> !(reply matches Reply::Status(s) && 200 <= s
            <= 299),
        reply_check(name, url, reply).name == name,
{
}

/// The claims of a token are told as they stand: who issued it, for which team, in which scope and under which
/// label.
pub proof fn law_claims_are_told(c: Claims, now: u64)
    ensures
        claim_checks(Ok(c), now)[0].detail == "iss="@ + c.iss@ + " team_id="@ + c.team_id@ + " scope="@ + lower_of(
            c.scope@,
        ) + " label="@ + c.label@,
{
}

/// The health of a hosted cache is asked of its host, whatever path follows the host; a URL of another scheme,
/// or one without a host, has no place to ask.
pub proof fn law_where_health_is_asked(host: Seq<char>, rest: Seq<char>, other: Seq<char>)
    requires
        !host.contains('/'),
        !"monad://"@.is_prefix_of(other),
    ensures
        host.len() > 0 ==> health_url("monad://"@ + host + "/"@ + rest) == Ok::<Seq<char>, Seq<char>>(
            "https://"@ + host + "/health"@,
        ),
        host.len() == 0 ==> health_url("monad://"@ + host + "/"@ + rest) is Err,
        health_url(other) is Err,
{
    crate::report::law_host_of_a_cache(host, rest);
    let url = "monad://"@ + host + "/"@ + rest;
    assert("monad://"@ =~= url.subrange(0, "monad://"@.len() as int));
}

} // verus!
