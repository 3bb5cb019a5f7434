//! The identifier resolver: maps a raw token — full id, prefixed short
//! id, or content-hash fragment — to exactly one canonical issue id.
//!
//! A token that names an existing id resolves to itself.  Otherwise, if
//! the resolver carries an id prefix, `prefix-token` is tried as an id.
//! Otherwise the token is a hash fragment: exactly one matching issue
//! resolves to it; none fails with `NotFound`; several fail with
//! `Ambiguous` — the resolver never guesses.

use vstd::prelude::*;

use crate::error::BeadsError;
use crate::model::IssueView;
use crate::store::{has_id, matching_ids, Store};

verus! {

/// Configuration the resolver needs from the caller's configuration
/// layer: the id prefix convention and the acting actor's identity.
pub struct ConfigLayer {
    pub issue_prefix: String,
    pub actor: String,
}

/// Resolver settings: the id prefix tried for short tokens (empty for
/// none).
pub struct ResolverConfig {
    pub prefix: String,
}

impl ResolverConfig {
    /// Settings with the given id prefix.
    pub fn with_prefix(prefix: String) -> (r: ResolverConfig)
        ensures
            r.prefix@ == prefix@,
    {
        ResolverConfig { prefix }
    }
}

/// A canonical id a token resolved to.
pub struct Resolution {
    pub id: String,
}

/// The id formed by putting the configured prefix in front of a short
/// token.
pub open spec fn prefixed(prefix: Seq<char>, token: Seq<char>) -> Seq<char> {
    prefix + "-"@ + token
}

/// What resolving one token against a store state yields.
pub ghost enum ResolveOutcome {
    Resolved(Seq<char>),
    NotFound,
    Ambiguous,
}

/// The outcome of resolving `token` against store state `s` under id
/// prefix `prefix`: exact id first, then the prefixed short form, then
/// the hash fragment rule.
pub open spec fn spec_resolve(
    s: Seq<IssueView>,
    prefix: Seq<char>,
    token: Seq<char>,
) -> ResolveOutcome {
    if has_id(s, token) {
        ResolveOutcome::Resolved(token)
    } else if prefix.len() > 0 && has_id(s, prefixed(prefix, token)) {
        ResolveOutcome::Resolved(prefixed(prefix, token))
    } else if matching_ids(s, token).len() == 1 {
        ResolveOutcome::Resolved(matching_ids(s, token)[0])
    } else if matching_ids(s, token).len() == 0 {
        ResolveOutcome::NotFound
    } else {
        ResolveOutcome::Ambiguous
    }
}

/// The error reported for one token matches the spec-level outcome.
pub open spec fn resolve_err_for(outcome: ResolveOutcome, e: BeadsError, token: Seq<char>) -> bool {
    match outcome {
        ResolveOutcome::Resolved(_) => false,
        ResolveOutcome::NotFound => e matches BeadsError::NotFound { token: t } && t@ == token,
        ResolveOutcome::Ambiguous => e matches BeadsError::Ambiguous { token: t } && t@ == token,
    }
}

/// Resolves raw id tokens against a store, with no side effects.
pub struct IdResolver {
    pub config: ResolverConfig,
}

impl IdResolver {
    /// A resolver with the given settings.
    pub fn new(config: ResolverConfig) -> (r: IdResolver)
        ensures
            r.config.prefix@ == config.prefix@,
    {
        IdResolver { config }
    }

    /// Resolves one token to a canonical issue id.
    pub fn resolve(&self, token: &str, store: &Store) -> (r: Result<Resolution, BeadsError>)
        requires
            store.wf(),
        ensures
            match spec_resolve(store@, self.config.prefix@, token@) {
                ResolveOutcome::Resolved(id) => r matches Ok(res) && res.id@ == id,
                ResolveOutcome::NotFound => r matches Err(e) && (e matches BeadsError::NotFound {
                    token: t,
                } && t@ == token@),
                ResolveOutcome::Ambiguous => r matches Err(e) && (e matches BeadsError::Ambiguous {
                    token: t,
                } && t@ == token@),
            },
    {
        if store.id_exists(token) {
            return Ok(Resolution { id: token.to_owned() });
        }
        if !self.config.prefix.as_str().is_empty() {
            let qualified = self.config.prefix.clone().concat("-").concat(token);
            proof {
                assert(qualified@ == prefixed(self.config.prefix@, token@));
            }
            if store.id_exists(qualified.as_str()) {
                return Ok(Resolution { id: qualified });
            }
        }
        let matches = store.find_ids_by_hash(token);
        if matches.len() == 1 {
            let id = matches[0].clone();
            proof {
                assert(id@ == matches.deep_view()[0]);
            }
            Ok(Resolution { id })
        } else if matches.len() == 0 {
            Err(BeadsError::NotFound { token: token.to_owned() })
        } else {
            Err(BeadsError::Ambiguous { token: token.to_owned() })
        }
    }

    /// Resolves each token independently, preserving input order, and
    /// fails the whole batch on the first unresolved token: no partial
    /// results are returned.
    pub fn resolve_all(&self, tokens: &Vec<String>, store: &Store) -> (r: Result<
        Vec<Resolution>,
        BeadsError,
    >)
        requires
            store.wf(),
        ensures
            (r is Ok) <==> (forall|i: int|
                0 <= i < tokens.deep_view().len() ==> spec_resolve(
                    store@,
                    self.config.prefix@,
                    tokens.deep_view()[i],
                ) is Resolved),
            r matches Ok(rs) ==> rs@.len() == tokens.deep_view().len() && (forall|i: int|
                0 <= i < rs@.len() ==> spec_resolve(store@, self.config.prefix@, tokens.deep_view()[i])
                    == ResolveOutcome::Resolved(rs@[i].id@)),
            r matches Err(e) ==> (exists|i: int|
                0 <= i < tokens.deep_view().len() && resolve_err_for(
                    spec_resolve(store@, self.config.prefix@, tokens.deep_view()[i]),
                    e,
                    tokens.deep_view()[i],
                ) && (forall|j: int|
                    0 <= j < i ==> spec_resolve(
                        store@,
                        self.config.prefix@,
                        tokens.deep_view()[j],
                    ) is Resolved)),
    {
        let mut out: Vec<Resolution> = Vec::new();
        let mut i: usize = 0;
        while i < tokens.len()
            invariant
                store.wf(),
                i <= tokens@.len(),
                out@.len() == i,
                forall|j: int|
                    0 <= j < i ==> spec_resolve(store@, self.config.prefix@, tokens.deep_view()[j])
                        == ResolveOutcome::Resolved(out@[j].id@),
            decreases tokens@.len() - i,
        {
            proof {
                assert(tokens.deep_view()[i as int] == tokens@[i as int]@);
            }
            match self.resolve(tokens[i].as_str(), store) {
                Ok(res) => {
                    out.push(res);
                },
                Err(e) => {
                    return Err(e);
                },
            }
            i = i + 1;
        }
        Ok(out)
    }
}

} // verus!
