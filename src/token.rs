//! The authorizer, its model, and the per-request decision.
use vstd::prelude::*;
use vstd::string::StringExecFns;

verus! {

/// The scheme that every stored credential begins with: `Bearer `.
pub open spec fn bearer_prefix() -> Seq<char> {
    seq!['B', 'e', 'a', 'r', 'e', 'r', ' ']
}

/// The credential that a raw token stands for: the header value that presents it.
pub open spec fn bearer(token: Seq<char>) -> Seq<char> {
    bearer_prefix() + token
}

/// The credentials accepted for a list of raw tokens.
pub open spec fn credentials(raw: Seq<Seq<char>>) -> Set<Seq<char>> {
    raw.map_values(|t: Seq<char>| bearer(t)).to_set()
}

/// What an authorizer is: its set of accepted credentials and its switch.
pub struct ApiTokenView {
    pub accepted: Set<Seq<char>>,
    pub enabled: bool,
}

/// The model after one more raw token is accepted.
pub open spec fn with_token(a: ApiTokenView, token: Seq<char>) -> ApiTokenView {
    ApiTokenView { accepted: a.accepted.insert(bearer(token)), enabled: a.enabled }
}

/// The status code of every refusal: 401, Unauthorized.
pub const UNAUTHORIZED_STATUS: u16 = 401;

/// Proof that a request passed the check.
#[derive(Debug, Clone, Copy, PartialEq, Eq, Structural)]
pub struct Authorized;

/// Why a request was refused.
#[derive(Debug, Clone, Copy, PartialEq, Eq, Structural)]
pub enum Unauthorized {
    /// The check is on and the request carries no `Authorization` header.
    MissingHeader,
    /// The header is present but is not an accepted credential.
    InvalidToken,
}

impl Unauthorized {
    /// The status code that the refusal is reported with.
    pub fn status(&self) -> (r: u16)
        ensures
            r == UNAUTHORIZED_STATUS,
    {
        UNAUTHORIZED_STATUS
    }

    /// The reason given with the refusal.
    pub fn reason(&self) -> (r: &'static str)
        ensures
            *self == Unauthorized::MissingHeader ==> r@ == "authorization header missing"@,
            *self == Unauthorized::InvalidToken ==> r@ == "invalid token"@,
    {
        match self {
            Unauthorized::MissingHeader => "authorization header missing",
            Unauthorized::InvalidToken => "invalid token",
        }
    }
}

/// The header value as a character sequence, if there is one.
pub open spec fn header_view(header: Option<&str>) -> Option<Seq<char>> {
    match header {
        Some(h) => Some(h@),
        None => None,
    }
}

/// The decision on a request: every request passes while the switch is off;
/// otherwise the header must be present and be an accepted credential, exactly.
pub open spec fn outcome(a: ApiTokenView, header: Option<Seq<char>>) -> Result<
    Authorized,
    Unauthorized,
> {
    if !a.enabled {
        Ok(Authorized)
    } else {
        match header {
            None => Err(Unauthorized::MissingHeader),
            Some(h) => if a.accepted.contains(h) {
                Ok(Authorized)
            } else {
                Err(Unauthorized::InvalidToken)
            },
        }
    }
}

/// Configuration for bearer-token authorization.
pub struct ApiToken {
    tokens: Vec<String>,
    enabled: bool,
}

/// The stored credentials, as character sequences.
pub closed spec fn stored(tokens: Seq<String>) -> Seq<Seq<char>> {
    tokens.map_values(|s: String| s@)
}

impl View for ApiToken {
    type V = ApiTokenView;

    closed spec fn view(&self) -> ApiTokenView {
        ApiTokenView { accepted: stored(self.tokens@).to_set(), enabled: self.enabled }
    }
}

/// Builds the credential for a raw token: `Bearer ` followed by the token.
fn credential(token: &str) -> (r: String)
    ensures
        r@ == bearer(token@),
{
    let mut s = String::from_str("Bearer ");
    proof {
        reveal_strlit("Bearer ");
        assert(s@ =~= bearer_prefix());
    }
    s.append(token);
    s
}

/// Whether `c` is among the stored credentials.
fn holds(tokens: &Vec<String>, c: &String) -> (r: bool)
    ensures
        r == stored(tokens@).contains(c@),
{
    let mut i: usize = 0;
    while i < tokens.len()
        invariant
            i <= tokens@.len(),
            forall|j: int| 0 <= j < i ==> tokens@[j]@ != c@,
        decreases tokens@.len() - i,
    {
        if tokens[i] == *c {
            assert(stored(tokens@)[i as int] == c@);
            return true;
        }
        i = i + 1;
    }
    assert(!stored(tokens@).contains(c@)) by {
        if stored(tokens@).contains(c@) {
            let j = choose|j: int| 0 <= j < stored(tokens@).len() && stored(tokens@)[j] == c@;
            assert(tokens@[j]@ == c@);
        }
    }
    false
}

impl ApiToken {
    /// No credential is stored twice.
    #[verifier::type_invariant]
    closed spec fn inv(&self) -> bool {
        stored(self.tokens@).no_duplicates()
    }

    /// Creates an authorizer that accepts `Bearer <t>` for each raw token `t`
    /// of `tokens`, with the given switch.
    pub fn new(tokens: Vec<String>, enabled: bool) -> (r: ApiToken)
        ensures
            r@ == (ApiTokenView { accepted: credentials(tokens.deep_view()), enabled }),
    {
        let mut list: Vec<String> = Vec::new();
        let mut i: usize = 0;
        while i < tokens.len()
            invariant
                i <= tokens@.len(),
                stored(list@).no_duplicates(),
                forall|c: Seq<char>|
                    stored(list@).contains(c) <==> exists|j: int|
                        0 <= j < i && c == #[trigger] bearer(tokens@[j]@),
            decreases tokens@.len() - i,
        {
            let c = credential(tokens[i].as_str());
            let ghost before = list@;
            if !holds(&list, &c) {
                list.push(c);
                assert(stored(list@) =~= stored(before).push(c@));
                assert(stored(list@)[stored(before).len() as int] == c@);
            }
            assert forall|x: Seq<char>|
                stored(list@).contains(x) <==> exists|j: int|
                    0 <= j < i + 1 && x == #[trigger] bearer(tokens@[j]@) by {
                if x == bearer(tokens@[i as int]@) {
                    assert(stored(list@).contains(x));
                }
                if stored(before).contains(x) {
                    let k = choose|k: int| 0 <= k < stored(before).len() && stored(before)[k] == x;
                    assert(stored(list@)[k] == x);
                }
            }
            i = i + 1;
        }
        let r = ApiToken { tokens: list, enabled };
        assert(r@.accepted =~= credentials(tokens.deep_view())) by {
            assert forall|x: Seq<char>|
                r@.accepted.contains(x) <==> credentials(tokens.deep_view()).contains(x) by {
                let m = tokens.deep_view().map_values(|t: Seq<char>| bearer(t));
                if credentials(tokens.deep_view()).contains(x) {
                    let k = choose|k: int| 0 <= k < m.len() && m[k] == x;
                    assert(x == bearer(tokens@[k]@));
                }
                if r@.accepted.contains(x) {
                    let k = choose|k: int| 0 <= k < i && x == bearer(tokens@[k]@);
                    assert(m[k] == x);
                }
            }
        }
        r
    }

    /// Accepts one more raw token: `Bearer <token>` becomes a valid credential.
    pub fn add_bearer(&mut self, token: &str)
        ensures
            final(self)@ == with_token(old(self)@, token@),
    {
        proof {
            use_type_invariant(&*self);
        }
        let c = credential(token);
        let ghost before = stored(self.tokens@);
        if !holds(&self.tokens, &c) {
            let mut list: Vec<String> = Vec::new();
            std::mem::swap(&mut list, &mut self.tokens);
            list.push(c);
            assert(stored(list@) =~= before.push(c@));
            assert(stored(list@)[before.len() as int] == c@);
            self.tokens = list;
        }
        proof {
            assert(self@.accepted =~= before.to_set().insert(c@)) by {
                assert forall|x: Seq<char>|
                    #[trigger] self@.accepted.contains(x) == before.to_set().insert(c@).contains(x) by {
                    if before.contains(x) {
                        let k = choose|k: int| 0 <= k < before.len() && before[k] == x;
                        assert(stored(self.tokens@)[k] == x);
                    }
                    if x == c@ {
                        assert(stored(self.tokens@).contains(x));
                    }
                }
            }
        }
    }

    /// Decides a request from its `Authorization` header, if it has one.
    pub fn check(&self, header: Option<&str>) -> (r: Result<Authorized, Unauthorized>)
        ensures
            r == outcome(self@, header_view(header)),
    {
        if !self.enabled {
            return Ok(Authorized);
        }
        match header {
            None => Err(Unauthorized::MissingHeader),
            Some(h) => {
                let value = String::from_str(h);
                if holds(&self.tokens, &value) {
                    Ok(Authorized)
                } else {
                    Err(Unauthorized::InvalidToken)
                }
            },
        }
    }

    /// Whether requests are checked at all.
    pub fn is_enabled(&self) -> (r: bool)
        ensures
            r == self@.enabled,
    {
        self.enabled
    }

    /// The number of accepted credentials.
    pub fn token_count(&self) -> (r: usize)
        ensures
            r == self@.accepted.len(),
    {
        proof {
            use_type_invariant(self);
            stored(self.tokens@).unique_seq_to_set();
        }
        self.tokens.len()
    }
}

} // verus!
