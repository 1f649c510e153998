//! Idempotency keys, saved responses, and the gateway's small decisions.
use vstd::prelude::*;

verus! {

/// Longest idempotency key accepted, in characters.
pub const MAX_KEY_LENGTH: usize = 50;

/// A key is accepted when it is non-empty and at most `MAX_KEY_LENGTH` long.
pub open spec fn is_valid_key(k: Seq<char>) -> bool {
    0 < k.len() <= MAX_KEY_LENGTH
}

/// Why the gateway refused or could not finish a command.
#[derive(PartialEq, Eq, Structural, Debug, Clone, Copy)]
pub enum GatewayError {
    /// The key is empty or too long; nothing was read or written.
    InvalidKey,
    /// Another request holds the claim and did not finish in time.
    ConcurrentClaimTimeout,
    /// The store refused the commit; nothing of the command was kept.
    PersistenceError,
}

/// A caller-supplied token that scopes one command for one principal.
pub struct IdempotencyKey {
    value: String,
}

impl View for IdempotencyKey {
    type V = Seq<char>;

    closed spec fn view(&self) -> Seq<char> {
        self.value@
    }
}

impl IdempotencyKey {
    #[verifier::type_invariant]
    spec fn inv(&self) -> bool {
        is_valid_key(self.value@)
    }

    pub fn parse(s: String) -> (r: Result<IdempotencyKey, GatewayError>)
        ensures
            is_valid_key(s@) ==> r is Ok && r->Ok_0@ == s@,
            !is_valid_key(s@) ==> r == Err::<IdempotencyKey, GatewayError>(
                GatewayError::InvalidKey,
            ),
    {
        let n = s.unicode_len();
        if n == 0 || n > MAX_KEY_LENGTH {
            Err(GatewayError::InvalidKey)
        } else {
            Ok(IdempotencyKey { value: s })
        }
    }

    pub fn as_str(&self) -> (r: &str)
        ensures
            r@ == self@,
            is_valid_key(r@),
    {
        proof {
            use_type_invariant(self);
        }
        self.value.as_str()
    }
}

/// One response header, name and raw value.
pub struct HeaderPair {
    pub name: String,
    pub value: Vec<u8>,
}

/// The response of a finished command, replayed to every later duplicate.
pub struct SavedResponse {
    pub status_code: u16,
    pub headers: Vec<HeaderPair>,
    pub body: Vec<u8>,
}

pub ghost struct ResponseView {
    pub status_code: u16,
    pub headers: Seq<(Seq<char>, Seq<u8>)>,
    pub body: Seq<u8>,
}

pub open spec fn header_view(h: HeaderPair) -> (Seq<char>, Seq<u8>) {
    (h.name@, h.value@)
}

impl View for SavedResponse {
    type V = ResponseView;

    open spec fn view(&self) -> ResponseView {
        ResponseView {
            status_code: self.status_code,
            headers: self.headers@.map_values(|h: HeaderPair| header_view(h)),
            body: self.body@,
        }
    }
}

pub fn copy_bytes(v: &Vec<u8>) -> (r: Vec<u8>)
    ensures
        r@ == v@,
{
    let mut r: Vec<u8> = Vec::new();
    let mut i: usize = 0;
    while i < v.len()
        invariant
            i <= v.len(),
            r@ == v@.subrange(0, i as int),
        decreases v.len() - i,
    {
        r.push(v[i]);
        i = i + 1;
    }
    assert(r@ =~= v@);
    r
}

impl HeaderPair {
    pub fn duplicate(&self) -> (r: HeaderPair)
        ensures
            header_view(r) == header_view(*self),
    {
        HeaderPair { name: self.name.clone(), value: copy_bytes(&self.value) }
    }
}

impl SavedResponse {
    /// A response with the same status, headers and body.
    pub fn duplicate(&self) -> (r: SavedResponse)
        ensures
            r@ == self@,
    {
        let mut headers: Vec<HeaderPair> = Vec::new();
        let mut i: usize = 0;
        while i < self.headers.len()
            invariant
                i <= self.headers@.len(),
                headers@.len() == i,
                forall|j: int|
                    0 <= j < i ==> header_view(#[trigger] headers@[j]) == header_view(
                        self.headers@[j],
                    ),
            decreases self.headers.len() - i,
        {
            headers.push(self.headers[i].duplicate());
            i = i + 1;
        }
        assert(headers@.map_values(|h: HeaderPair| header_view(h)) =~= self.headers@.map_values(
            |h: HeaderPair| header_view(h),
        ));
        SavedResponse { status_code: self.status_code, headers, body: copy_bytes(&self.body) }
    }
}

/// What a request does after trying to place its claim in the store.
pub enum ClaimDecision {
    /// The claim was placed: run the command.
    Start,
    /// The command ran before: answer with its response.
    Replay(SavedResponse),
    /// Another request holds the claim: wait and look again.
    Wait,
}

/// A placed claim starts the command; otherwise the saved response, if there
/// is one yet, is replayed, and a placeholder means waiting.
pub fn claim_decision(inserted: bool, saved: Option<SavedResponse>) -> (r: ClaimDecision)
    ensures
        inserted ==> r is Start,
        !inserted && saved is Some ==> (r matches ClaimDecision::Replay(x) && x@ == saved->Some_0@),
        !inserted && saved is None ==> r is Wait,
{
    if inserted {
        ClaimDecision::Start
    } else {
        match saved {
            Some(resp) => ClaimDecision::Replay(resp),
            None => ClaimDecision::Wait,
        }
    }
}

/// Pause between two looks at a claim that another request holds.
pub const CLAIM_WAIT_INTERVAL_MS: u64 = 200;

/// Looks at a held claim before the wait gives up.
pub const MAX_CLAIM_WAIT_ATTEMPTS: u32 = 25;

/// What to do after `attempts` looks at a claim that is still held: sleep for
/// the returned milliseconds and look again, or give up.
pub fn claim_wait_step(attempts: u32) -> (r: Result<u64, GatewayError>)
    ensures
        attempts < MAX_CLAIM_WAIT_ATTEMPTS ==> r == Ok::<u64, GatewayError>(
            CLAIM_WAIT_INTERVAL_MS,
        ),
        attempts >= MAX_CLAIM_WAIT_ATTEMPTS ==> r == Err::<u64, GatewayError>(
            GatewayError::ConcurrentClaimTimeout,
        ),
{
    if attempts < MAX_CLAIM_WAIT_ATTEMPTS {
        Ok(CLAIM_WAIT_INTERVAL_MS)
    } else {
        Err(GatewayError::ConcurrentClaimTimeout)
    }
}

} // verus!
