//! The probe set of a run: the probes given as tokens, followed by the
//! built-in defaults unless these are suppressed.

use crate::parse::{parse_errors, parse_probes, parsed_probes};
use crate::probe::{Probe, Protocol};
use vstd::prelude::*;

verus! {

/// The built-in probes: HTTP on port 80, then HTTPS on port 443.
pub open spec fn default_probe_set() -> Seq<Probe> {
    seq![
        Probe { protocol: Protocol::Http, port: 80 },
        Probe { protocol: Protocol::Https, port: 443 },
    ]
}

/// The probe set that the tokens resolve to.
///
/// If any token denotes no probe, the result is the list of error messages,
/// one for each such token, and no probe set. Otherwise it is the probes of
/// the tokens in their order, followed by the defaults if they are included.
pub open spec fn resolved(tokens: Seq<Seq<char>>, include_defaults: bool) -> Result<
    Seq<Probe>,
    Seq<Seq<char>>,
> {
    if parse_errors(tokens).len() > 0 {
        Err(parse_errors(tokens))
    } else if include_defaults {
        Ok(parsed_probes(tokens) + default_probe_set())
    } else {
        Ok(parsed_probes(tokens))
    }
}

/// The built-in probes, in their order.
pub fn default_probes() -> (probes: Vec<Probe>)
    ensures
        probes@ == default_probe_set(),
{
    let mut probes: Vec<Probe> = Vec::new();
    probes.push(Probe::new_http(80));
    probes.push(Probe::new_https(443));
    assert(probes@ =~= default_probe_set());
    probes
}

/// Resolves the probe set of a run from the probe tokens and the choice
/// whether the defaults are included. An absent list of tokens is the empty
/// list.
///
/// Fails with every error message if any token does not parse, so that a
/// run never starts on part of what was asked for.
pub fn resolve_probes(tokens: Vec<&str>, include_defaults: bool) -> (outcome: Result<
    Vec<Probe>,
    Vec<String>,
>)
    ensures
        outcome is Err <==> parse_errors(tokens.deep_view()).len() > 0,
        match outcome {
            Ok(probes) => resolved(tokens.deep_view(), include_defaults) == Ok::<
                Seq<Probe>,
                Seq<Seq<char>>,
            >(probes@),
            Err(errors) => resolved(tokens.deep_view(), include_defaults) == Err::<
                Seq<Probe>,
                Seq<Seq<char>>,
            >(errors.deep_view()),
        },
{
    let ghost texts = tokens.deep_view();
    let (mut probes, errors) = parse_probes(tokens);
    assert(errors.deep_view().len() == errors.len());
    if errors.len() > 0 {
        return Err(errors);
    }
    if include_defaults {
        let mut defaults = default_probes();
        probes.append(&mut defaults);
    }
    Ok(probes)
}

/// With no tokens and the defaults included, the probe set is exactly the
/// two defaults.
pub proof fn lemma_no_tokens_resolve_to_defaults()
    ensures
        resolved(Seq::empty(), true) == Ok::<Seq<Probe>, Seq<Seq<char>>>(default_probe_set()),
        resolved(Seq::empty(), false) == Ok::<Seq<Probe>, Seq<Seq<char>>>(Seq::empty()),
{
    let none = Seq::<Seq<char>>::empty();
    assert(parsed_probes(none) + default_probe_set() =~= default_probe_set());
}

} // verus!
