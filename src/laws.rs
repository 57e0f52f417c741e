//! Properties of the authorizer that relate several of its operations.
use vstd::prelude::*;

use crate::token::{bearer, bearer_prefix, credentials, outcome, with_token, ApiTokenView, Authorized, Unauthorized};

verus! {

/// Two raw tokens give the same credential only if they are equal.
pub proof fn lemma_bearer_injective(s: Seq<char>, t: Seq<char>)
    requires
        bearer(s) == bearer(t),
    ensures
        s == t,
{
    let n = bearer_prefix().len();
    assert(s =~= bearer(s).subrange(n as int, bearer(s).len() as int));
    assert(t =~= bearer(t).subrange(n as int, bearer(t).len() as int));
}

/// A credential is accepted for a list of raw tokens exactly when its token is in the list.
pub proof fn lemma_credentials_contains(tokens: Seq<Seq<char>>, t: Seq<char>)
    ensures
        credentials(tokens).contains(bearer(t)) <==> tokens.contains(t),
{
    let m = tokens.map_values(|x: Seq<char>| bearer(x));
    if tokens.contains(t) {
        let k = choose|k: int| 0 <= k < tokens.len() && tokens[k] == t;
        assert(m[k] == bearer(t));
    }
    if credentials(tokens).contains(bearer(t)) {
        let k = choose|k: int| 0 <= k < m.len() && m[k] == bearer(t);
        lemma_bearer_injective(tokens[k], t);
    }
}

/// With the check on, an authorizer made from a list of raw tokens lets through
/// the header `Bearer <t>` for every token `t` of the list.
pub proof fn lemma_listed_token_authorized(tokens: Seq<Seq<char>>, t: Seq<char>)
    requires
        tokens.contains(t),
    ensures
        outcome(ApiTokenView { accepted: credentials(tokens), enabled: true }, Some(bearer(t)))
            == Ok::<Authorized, Unauthorized>(Authorized),
{
    lemma_credentials_contains(tokens, t);
}

/// With the check on, an authorizer made from a list of raw tokens refuses the
/// header `Bearer <s>` as an invalid token for every `s` not in the list.
pub proof fn lemma_unlisted_token_rejected(tokens: Seq<Seq<char>>, s: Seq<char>)
    requires
        !tokens.contains(s),
    ensures
        outcome(ApiTokenView { accepted: credentials(tokens), enabled: true }, Some(bearer(s)))
            == Err::<Authorized, Unauthorized>(Unauthorized::InvalidToken),
{
    lemma_credentials_contains(tokens, s);
}

/// With the check off, every request is authorized, whatever its header.
pub proof fn lemma_disabled_authorizes_all(a: ApiTokenView, header: Option<Seq<char>>)
    requires
        !a.enabled,
    ensures
        outcome(a, header) == Ok::<Authorized, Unauthorized>(Authorized),
{
}

/// With the check on, a request without a header is refused as missing it.
pub proof fn lemma_enabled_requires_header(a: ApiTokenView)
    requires
        a.enabled,
    ensures
        outcome(a, None) == Err::<Authorized, Unauthorized>(Unauthorized::MissingHeader),
{
}

/// Accepting the same raw token a second time changes nothing, so the number
/// of accepted credentials stays the same.
pub proof fn lemma_add_token_idempotent(a: ApiTokenView, t: Seq<char>)
    requires
        a.accepted.finite(),
    ensures
        with_token(with_token(a, t), t) == with_token(a, t),
        with_token(with_token(a, t), t).accepted.len() == with_token(a, t).accepted.len(),
{
    assert(with_token(a, t).accepted.insert(bearer(t)) =~= with_token(a, t).accepted);
}

/// The scheme is matched with its case: with the check on, the header
/// `bearer <t>` is refused as an invalid token by an authorizer made from any
/// list of raw tokens, `t` among them or not.
pub proof fn lemma_scheme_case_sensitive(tokens: Seq<Seq<char>>, t: Seq<char>)
    ensures
        outcome(
            ApiTokenView { accepted: credentials(tokens), enabled: true },
            Some(seq!['b', 'e', 'a', 'r', 'e', 'r', ' '] + t),
        ) == Err::<Authorized, Unauthorized>(Unauthorized::InvalidToken),
{
    let h = seq!['b', 'e', 'a', 'r', 'e', 'r', ' '] + t;
    let m = tokens.map_values(|x: Seq<char>| bearer(x));
    if credentials(tokens).contains(h) {
        let k = choose|k: int| 0 <= k < m.len() && m[k] == h;
        assert(m[k][0] == 'B');
        assert(h[0] == 'b');
    }
}

} // verus!
