//! Probe tokens of the form `<protocol>:<port>`: what they denote, and how
//! a list of them is read into probes and error messages.

use crate::decimal::{decimal_digits, lemma_decimal_round_trip, parse_unsigned, unsigned_literal};
use crate::probe::{scheme, Port, Probe, Protocol, MAX_PORT};
use vstd::prelude::*;

verus! {

/// The probe that `token` denotes if its protocol keyword is that of
/// `protocol`: the token must be the keyword, a colon, and an unsigned
/// decimal literal no greater than 65535.
pub open spec fn probe_with(protocol: Protocol, token: Seq<char>) -> Option<Probe> {
    let head = scheme(protocol) + ":"@;
    if head.is_prefix_of(token) {
        match unsigned_literal(token.skip(head.len() as int), MAX_PORT as nat) {
            Some(port) => Some(Probe { protocol, port: port as Port }),
            None => None,
        }
    } else {
        None
    }
}

/// The probe that a token denotes, if it denotes one. The keyword is
/// matched exactly: `http` or `https`, in lower case.
pub open spec fn token_probe(token: Seq<char>) -> Option<Probe> {
    match probe_with(Protocol::Http, token) {
        Some(probe) => Some(probe),
        None => probe_with(Protocol::Https, token),
    }
}

/// The message reported for a token that denotes no probe.
pub open spec fn error_message(token: Seq<char>) -> Seq<char> {
    "Error parsing probe: "@ + token
}

/// The probes that the tokens denote, in the order of the tokens; tokens
/// that denote none are passed over.
pub open spec fn parsed_probes(tokens: Seq<Seq<char>>) -> Seq<Probe>
    decreases tokens.len(),
{
    if tokens.len() == 0 {
        Seq::empty()
    } else {
        let earlier = parsed_probes(tokens.drop_last());
        match token_probe(tokens.last()) {
            Some(probe) => earlier.push(probe),
            None => earlier,
        }
    }
}

/// The error messages for the tokens that denote no probe, in the order of
/// the tokens.
pub open spec fn parse_errors(tokens: Seq<Seq<char>>) -> Seq<Seq<char>>
    decreases tokens.len(),
{
    if tokens.len() == 0 {
        Seq::empty()
    } else {
        let earlier = parse_errors(tokens.drop_last());
        match token_probe(tokens.last()) {
            Some(_) => earlier,
            None => earlier.push(error_message(tokens.last())),
        }
    }
}

/// Whether `text` begins with `prefix`.
fn starts_with(text: &str, prefix: &str) -> (found: bool)
    ensures
        found == prefix@.is_prefix_of(text@),
{
    let n = prefix.unicode_len();
    let m = text.unicode_len();
    if n > m {
        return false;
    }
    let mut i: usize = 0;
    while i < n
        invariant
            i <= n <= m,
            n == prefix@.len(),
            m == text@.len(),
            forall|j: int| 0 <= j < i ==> text@[j] == prefix@[j],
        decreases n - i,
    {
        if text.get_char(i) != prefix.get_char(i) {
            assert(text@.subrange(0, n as int)[i as int] != prefix@[i as int]);
            return false;
        }
        i = i + 1;
    }
    assert(prefix@ =~= text@.subrange(0, n as int));
    true
}

/// Reads the part of `token` that follows a keyword and colon of
/// `head_len` characters as the port of a probe for `protocol`.
fn parse_port(token: &str, head_len: usize, protocol: Protocol) -> (probe: Option<Probe>)
    requires
        head_len <= token@.len(),
    ensures
        probe == match unsigned_literal(token@.skip(head_len as int), MAX_PORT as nat) {
            Some(port) => Some(Probe { protocol, port: port as Port }),
            None => None,
        },
{
    let n = token.unicode_len();
    let tail = token.substring_char(head_len, n);
    match parse_unsigned(tail, MAX_PORT) {
        Some(port) => Some(Probe::new(protocol, port as Port)),
        None => None,
    }
}

/// Parse one probe token of the form `<protocol>:<port>`, where protocol
/// is `http` or `https` and port a number between 0 and 65535.
pub fn parse_probe(token: &str) -> (probe: Option<Probe>)
    ensures
        probe == token_probe(token@),
{
    proof {
        reveal_strlit("http");
        reveal_strlit("https");
        reveal_strlit(":");
        reveal_strlit("http:");
        reveal_strlit("https:");
        assert("http:"@ =~= scheme(Protocol::Http) + ":"@);
        assert("https:"@ =~= scheme(Protocol::Https) + ":"@);
    }
    if starts_with(token, "http:") {
        assert(!"https:"@.is_prefix_of(token@)) by {
            assert("http:"@[4] == token@.subrange(0, 5)[4]);
            if "https:"@.is_prefix_of(token@) {
                assert("https:"@[4] == token@.subrange(0, 6)[4]);
            }
        }
        parse_port(token, 5, Protocol::Http)
    } else if starts_with(token, "https:") {
        parse_port(token, 6, Protocol::Https)
    } else {
        None
    }
}

/// Parse the probes passed from the command line. The format is
/// `<protocol>:<port>` where protocol can be http or https, and port can be
/// a number between 0 and 65535.
///
/// Returns the probes of the tokens that parse and an error message for
/// each token that does not, both in the order of the tokens. No token
/// stops the others from being read.
pub fn parse_probes(probes: Vec<&str>) -> (parsed: (Vec<Probe>, Vec<String>))
    ensures
        parsed.0@ == parsed_probes(probes.deep_view()),
        parsed.1.deep_view() == parse_errors(probes.deep_view()),
{
    let ghost tokens = probes.deep_view();
    let mut found: Vec<Probe> = Vec::new();
    let mut errors: Vec<String> = Vec::new();
    let mut i: usize = 0;
    assert(tokens.take(0) =~= Seq::<Seq<char>>::empty());
    while i < probes.len()
        invariant
            i <= probes.len(),
            tokens == probes.deep_view(),
            found@ == parsed_probes(tokens.take(i as int)),
            errors.deep_view() == parse_errors(tokens.take(i as int)),
        decreases probes.len() - i,
    {
        let token: &str = probes[i];
        assert(tokens.take(i + 1).drop_last() =~= tokens.take(i as int));
        assert(tokens.take(i + 1).last() == token@);
        match parse_probe(token) {
            Some(probe) => {
                found.push(probe);
            },
            None => {
                let ghost before = errors.deep_view();
                let mut message = String::from_str("Error parsing probe: ");
                message.append(token);
                errors.push(message);
                assert(errors.deep_view() =~= before.push(error_message(token@)));
            },
        }
        i = i + 1;
    }
    assert(tokens.take(i as int) =~= tokens);
    (found, errors)
}

/// Every token is accounted for once: it gives either a probe or an error
/// message.
pub proof fn lemma_parse_accounts_for_every_token(tokens: Seq<Seq<char>>)
    ensures
        parsed_probes(tokens).len() + parse_errors(tokens).len() == tokens.len(),
    decreases tokens.len(),
{
    if tokens.len() > 0 {
        lemma_parse_accounts_for_every_token(tokens.drop_last());
    }
}

/// Parsing keeps the order of the tokens: what a list of tokens gives is
/// what its front part gives followed by what its back part gives, for the
/// probes and for the error messages alike.
pub proof fn lemma_parse_keeps_order(front: Seq<Seq<char>>, back: Seq<Seq<char>>)
    ensures
        parsed_probes(front + back) == parsed_probes(front) + parsed_probes(back),
        parse_errors(front + back) == parse_errors(front) + parse_errors(back),
    decreases back.len(),
{
    if back.len() == 0 {
        assert(front + back =~= front);
        assert(parsed_probes(front) + parsed_probes(back) =~= parsed_probes(front));
        assert(parse_errors(front) + parse_errors(back) =~= parse_errors(front));
    } else {
        lemma_parse_keeps_order(front, back.drop_last());
        assert((front + back).drop_last() =~= front + back.drop_last());
        assert((front + back).last() == back.last());
        assert(parsed_probes(front + back) =~= parsed_probes(front) + parsed_probes(back));
        assert(parse_errors(front + back) =~= parse_errors(front) + parse_errors(back));
    }
}

/// Where every token denotes a probe, there is no error message and the
/// probes are those of the tokens, one for one and in the same places.
pub proof fn lemma_valid_tokens_all_parse(tokens: Seq<Seq<char>>)
    requires
        forall|i: int| 0 <= i < tokens.len() ==> token_probe(#[trigger] tokens[i]) is Some,
    ensures
        parse_errors(tokens).len() == 0,
        parsed_probes(tokens).len() == tokens.len(),
        forall|i: int|
            0 <= i < tokens.len() ==> Some(#[trigger] parsed_probes(tokens)[i]) == token_probe(
                tokens[i],
            ),
    decreases tokens.len(),
{
    if tokens.len() > 0 {
        let earlier = tokens.drop_last();
        assert forall|i: int| 0 <= i < earlier.len() implies token_probe(
            #[trigger] earlier[i],
        ) is Some by {
            assert(earlier[i] == tokens[i]);
        }
        lemma_valid_tokens_all_parse(earlier);
        assert(token_probe(tokens[tokens.len() - 1]) is Some);
        assert forall|i: int| 0 <= i < tokens.len() implies Some(
            #[trigger] parsed_probes(tokens)[i],
        ) == token_probe(tokens[i]) by {
            if i < earlier.len() {
                assert(earlier[i] == tokens[i]);
                assert(parsed_probes(tokens)[i] == parsed_probes(earlier)[i]);
            }
        }
    }
}

/// Where no token denotes a probe, there is no probe and the error
/// messages are those of the tokens, one for one and in the same places.
pub proof fn lemma_invalid_tokens_all_fail(tokens: Seq<Seq<char>>)
    requires
        forall|i: int| 0 <= i < tokens.len() ==> token_probe(#[trigger] tokens[i]) is None,
    ensures
        parsed_probes(tokens).len() == 0,
        parse_errors(tokens).len() == tokens.len(),
        forall|i: int|
            0 <= i < tokens.len() ==> #[trigger] parse_errors(tokens)[i] == error_message(
                tokens[i],
            ),
    decreases tokens.len(),
{
    if tokens.len() > 0 {
        let earlier = tokens.drop_last();
        assert forall|i: int| 0 <= i < earlier.len() implies token_probe(
            #[trigger] earlier[i],
        ) is None by {
            assert(earlier[i] == tokens[i]);
        }
        lemma_invalid_tokens_all_fail(earlier);
        assert(token_probe(tokens[tokens.len() - 1]) is None);
        assert forall|i: int| 0 <= i < tokens.len() implies #[trigger] parse_errors(tokens)[i]
            == error_message(tokens[i]) by {
            if i < earlier.len() {
                assert(earlier[i] == tokens[i]);
                assert(parse_errors(tokens)[i] == parse_errors(earlier)[i]);
            }
        }
    }
}

/// A single token gives one probe and no error, or no probe and one error.
pub proof fn lemma_parse_single_token(token: Seq<char>)
    ensures
        parsed_probes(seq![token]) == match token_probe(token) {
            Some(probe) => seq![probe],
            None => Seq::<Probe>::empty(),
        },
        parse_errors(seq![token]) == match token_probe(token) {
            Some(_) => Seq::<Seq<char>>::empty(),
            None => seq![error_message(token)],
        },
{
    let tokens = seq![token];
    assert(tokens.drop_last() =~= Seq::<Seq<char>>::empty());
    assert(parsed_probes(tokens.drop_last()) =~= Seq::<Probe>::empty());
    assert(parse_errors(tokens.drop_last()) =~= Seq::<Seq<char>>::empty());
    assert(tokens.last() == token);
    match token_probe(token) {
        Some(probe) => {
            assert(parsed_probes(tokens) =~= seq![probe]);
        },
        None => {
            assert(parse_errors(tokens) =~= seq![error_message(token)]);
        },
    }
}

/// The keyword of either protocol holds no colon, and the two keywords
/// differ where the shorter one ends.
proof fn lemma_scheme_shape(protocol: Protocol)
    ensures
        forall|j: int| 0 <= j < scheme(protocol).len() ==> scheme(protocol)[j] != ':',
        scheme(Protocol::Http).len() == 4,
        scheme(Protocol::Https).len() == 5,
        scheme(Protocol::Https)[4] == 's',
        ":"@ == seq![':'],
{
    reveal_strlit("http");
    reveal_strlit("https");
    reveal_strlit(":");
    assert(":"@ =~= seq![':']);
}

/// A token made of a protocol keyword, a colon and some text denotes the
/// probe for that protocol and the port that the text denotes as a literal
/// of at most 65535, and nothing where the text denotes no such port.
pub proof fn lemma_keyword_token(protocol: Protocol, text: Seq<char>)
    ensures
        token_probe(scheme(protocol) + ":"@ + text) == match unsigned_literal(
            text,
            MAX_PORT as nat,
        ) {
            Some(port) => Some(Probe { protocol, port: port as Port }),
            None => None,
        },
{
    let head = scheme(protocol) + ":"@;
    let token = head + text;
    lemma_scheme_shape(protocol);
    assert(head =~= token.subrange(0, head.len() as int));
    assert(token.skip(head.len() as int) =~= text);
    let other = match protocol {
        Protocol::Http => scheme(Protocol::Https) + ":"@,
        Protocol::Https => scheme(Protocol::Http) + ":"@,
    };
    if other.is_prefix_of(token) {
        assert(other[4] == token.subrange(0, other.len() as int)[4]);
        assert(token[4] == head[4]);
    }
}

/// The token written as a protocol keyword, a colon and the shortest
/// numeral of `number` denotes the probe for that protocol and port when
/// the number is a port, and nothing when it is above 65535.
pub proof fn lemma_written_token(protocol: Protocol, number: nat)
    ensures
        token_probe(scheme(protocol) + ":"@ + decimal_digits(number)) == if number
            <= MAX_PORT {
            Some(Probe { protocol, port: number as Port })
        } else {
            None
        },
{
    lemma_keyword_token(protocol, decimal_digits(number));
    lemma_decimal_round_trip(number, MAX_PORT as nat);
}

/// A token whose text before the first colon is neither `http` nor `https`
/// denotes no probe, whatever follows the colon.
pub proof fn lemma_other_keyword_denotes_nothing(word: Seq<char>, text: Seq<char>)
    requires
        word != scheme(Protocol::Http),
        word != scheme(Protocol::Https),
        !word.contains(':'),
    ensures
        token_probe(word + ":"@ + text) is None,
{
    let token = word + ":"@ + text;
    lemma_scheme_shape(Protocol::Http);
    assert forall|protocol: Protocol| !(#[trigger] scheme(protocol) + ":"@).is_prefix_of(
        token,
    ) by {
        let keyword = scheme(protocol);
        let head = keyword + ":"@;
        lemma_scheme_shape(protocol);
        if head.is_prefix_of(token) {
            let n = keyword.len() as int;
            assert forall|j: int| 0 <= j <= n implies token[j] == head[j] by {
                assert(token.subrange(0, head.len() as int)[j] == head[j]);
            }
            if word.len() < n {
                assert(token[word.len() as int] == ':');
                assert(keyword[word.len() as int] == head[word.len() as int]);
            } else if word.len() > n {
                assert(word[n] == token[n]);
                assert(word.contains(':'));
            } else {
                assert(word =~= keyword) by {
                    assert forall|j: int| 0 <= j < n implies word[j] == keyword[j] by {
                        assert(word[j] == token[j]);
                        assert(keyword[j] == head[j]);
                    }
                }
            }
        }
    }
    assert(!(scheme(Protocol::Http) + ":"@).is_prefix_of(token));
    assert(!(scheme(Protocol::Https) + ":"@).is_prefix_of(token));
}

/// A token without a colon denotes no probe.
pub proof fn lemma_no_colon_denotes_nothing(token: Seq<char>)
    requires
        !token.contains(':'),
    ensures
        token_probe(token) is None,
{
    assert forall|protocol: Protocol| !(#[trigger] scheme(protocol) + ":"@).is_prefix_of(
        token,
    ) by {
        let head = scheme(protocol) + ":"@;
        lemma_scheme_shape(protocol);
        if head.is_prefix_of(token) {
            let at = scheme(protocol).len() as int;
            assert(token.subrange(0, head.len() as int)[at] == head[at]);
            assert(token[at] == ':');
        }
    }
    assert(!(scheme(Protocol::Http) + ":"@).is_prefix_of(token));
    assert(!(scheme(Protocol::Https) + ":"@).is_prefix_of(token));
}

/// Whether the first colon of `token` stands at index `at`.
pub open spec fn is_first_colon(token: Seq<char>, at: int) -> bool {
    &&& 0 <= at < token.len()
    &&& token[at] == ':'
    &&& forall|j: int| 0 <= j < at ==> token[j] != ':'
}

/// A token denotes a probe exactly when splitting it at its first colon
/// gives the keyword of the probe's protocol in front and a literal of the
/// probe's port behind.
pub proof fn lemma_token_splits_at_first_colon(token: Seq<char>, probe: Probe)
    ensures
        token_probe(token) == Some(probe) <==> exists|at: int|
            #![trigger is_first_colon(token, at)]
            is_first_colon(token, at) && token.take(at) == scheme(probe.protocol)
                && unsigned_literal(token.skip(at + 1), MAX_PORT as nat) == Some(
                probe.port as nat,
            ),
{
    lemma_scheme_shape(probe.protocol);
    let http = scheme(Protocol::Http) + ":"@;
    let https = scheme(Protocol::Https) + ":"@;
    if token_probe(token) == Some(probe) {
        let head = scheme(probe.protocol) + ":"@;
        let at = scheme(probe.protocol).len() as int;
        assert(head.is_prefix_of(token));
        assert forall|j: int| 0 <= j <= at implies token[j] == head[j] by {
            assert(token.subrange(0, head.len() as int)[j] == head[j]);
        }
        assert(is_first_colon(token, at));
        assert(token.take(at) =~= scheme(probe.protocol));
    }
    if exists|at: int|
        #![trigger is_first_colon(token, at)]
        is_first_colon(token, at) && token.take(at) == scheme(probe.protocol) && unsigned_literal(
            token.skip(at + 1),
            MAX_PORT as nat,
        ) == Some(probe.port as nat) {
        let at = choose|at: int|
            #![trigger is_first_colon(token, at)]
            is_first_colon(token, at) && token.take(at) == scheme(probe.protocol)
                && unsigned_literal(token.skip(at + 1), MAX_PORT as nat) == Some(
                probe.port as nat,
            );
        let head = scheme(probe.protocol) + ":"@;
        assert(token.take(at).len() == at);
        assert(head =~= token.subrange(0, head.len() as int)) by {
            assert forall|j: int| 0 <= j < head.len() implies head[j] == token[j] by {
                if j < at {
                    assert(token.take(at)[j] == token[j]);
                }
            }
        }
        match probe.protocol {
            Protocol::Http => {},
            Protocol::Https => {
                if http.is_prefix_of(token) {
                    assert(http[4] == token.subrange(0, http.len() as int)[4]);
                }
            },
        }
    }
}

} // verus!
