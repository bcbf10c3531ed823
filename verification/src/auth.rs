//! Sign-In with Ethereum: the challenge the relay sends, and the check of
//! the message a client signs back.

use vstd::prelude::*;
use vstd::string::{StringExecFns, StringSliceAdditionalSpecFns};
use crate::error::AppError;
use crate::message::{
    AuthPayload, OutgoingMessage, challenge_text, challenge_with_chain, json_quote, json_string,
};
use crate::state::{AppState, AuthState};
use crate::text::{ascii_lower_char, decimal, decimal_string, eq_ascii_case_insensitive, eq_ignore_ascii_case, hex_lower, str_eq};

verus! {

/// What `chrono` renders for the UTC instant `secs` seconds and `nanos`
/// nanoseconds after the Unix epoch in RFC 3339 form, or `None` where the
/// instant is out of its range.
pub uninterp spec fn rfc3339_of(secs: i64, nanos: u32) -> Option<Seq<char>>;

/// Calls `chrono::DateTime::from_timestamp` and, where it gives an instant,
/// `to_rfc3339` on it. The contract claims only that the result is a
/// function of the two numbers, named `rfc3339_of`.
#[verifier::external_body]
fn rfc3339_from_timestamp(secs: i64, nanos: u32) -> (r: Option<String>)
    ensures
        match r {
            Some(t) => rfc3339_of(secs, nanos) == Some(t@),
            None => rfc3339_of(secs, nanos) is None,
        },
{
    match chrono::DateTime::from_timestamp(secs, nanos) {
        Some(dt) => Some(dt.to_rfc3339()),
        None => None,
    }
}

/// Reads the clock with `chrono::Utc::now`, as seconds since the Unix epoch
/// and the nanoseconds past them. Which instant comes back is not claimed;
/// `Utc::now` builds its value with `DateTime::from_timestamp(..).unwrap()`,
/// so the two numbers always name an instant that chrono can represent.
#[verifier::external_body]
fn utc_now() -> (r: (i64, u32))
    ensures
        rfc3339_of(r.0, r.1) is Some,
{
    let now = chrono::Utc::now();
    (now.timestamp(), now.timestamp_subsec_nanos())
}

/// A lowercase hexadecimal digit.
pub open spec fn is_lower_hex(c: char) -> bool {
    ('0' <= c && c <= '9') || ('a' <= c && c <= 'f')
}

/// The hyphenated text of a random (version 4, RFC 4122 variant) UUID:
/// 36 characters, hyphens at positions 8, 13, 18 and 23, lowercase hex
/// digits elsewhere, `4` at position 14 and one of `8`, `9`, `a`, `b` at
/// position 19.
pub open spec fn uuid_v4_text(s: Seq<char>) -> bool {
    &&& s.len() == 36
    &&& forall|i: int|
        0 <= i < 36 ==> if i == 8 || i == 13 || i == 18 || i == 23 {
            #[trigger] s[i] == '-'
        } else {
            is_lower_hex(s[i])
        }
    &&& s[14] == '4'
    &&& (s[19] == '8' || s[19] == '9' || s[19] == 'a' || s[19] == 'b')
}

/// Draws a random UUID with `uuid::Uuid::new_v4` and renders it with its
/// `Display`, the lowercase hyphenated form. `new_v4` sets the version bits
/// to 4 and the variant bits to `10`; the other bits are random, so nothing
/// more is claimed of them.
#[verifier::external_body]
pub(crate) fn random_uuid() -> (r: String)
    ensures
        uuid_v4_text(r@),
{
    uuid::Uuid::new_v4().to_string()
}

/// An instant, with its RFC 3339 rendering.
pub struct IssuedAt {
    secs: i64,
    nanos: u32,
    text: String,
}

impl IssuedAt {
    pub closed spec fn seconds(&self) -> i64 {
        self.secs
    }

    pub closed spec fn nanoseconds(&self) -> u32 {
        self.nanos
    }

    /// The RFC 3339 rendering of the instant.
    pub closed spec fn rfc3339(&self) -> Seq<char> {
        self.text@
    }

    #[verifier::type_invariant]
    spec fn inv(&self) -> bool {
        rfc3339_of(self.secs, self.nanos) == Some(self.text@)
    }

    /// The instant `secs` seconds and `nanos` nanoseconds after the Unix
    /// epoch, where chrono can represent it.
    pub fn from_timestamp(secs: i64, nanos: u32) -> (r: Option<IssuedAt>)
        ensures
            r is Some <==> rfc3339_of(secs, nanos) is Some,
            r matches Some(t) ==> t.seconds() == secs && t.nanoseconds() == nanos && Some(
                t.rfc3339(),
            ) == rfc3339_of(secs, nanos),
    {
        match rfc3339_from_timestamp(secs, nanos) {
            Some(text) => Some(IssuedAt { secs, nanos, text }),
            None => None,
        }
    }

    /// The RFC 3339 rendering of the instant.
    pub fn to_rfc3339(&self) -> (s: &str)
        ensures
            s@ == self.rfc3339(),
            Some(s@) == rfc3339_of(self.seconds(), self.nanoseconds()),
    {
        proof {
            use_type_invariant(self);
        }
        self.text.as_str()
    }
}

/// The fields of a SIWE message the relay checks.
pub struct SiweFields {
    /// The authority that asks for the signature, as written.
    pub domain: String,
    pub uri: String,
    pub chain_id: u64,
    /// The 20 bytes of the signing address.
    pub address: Vec<u8>,
}

pub struct SiweFieldsView {
    pub domain: Seq<char>,
    pub uri: Seq<char>,
    pub chain_id: u64,
    pub address: Seq<u8>,
}

impl View for SiweFields {
    type V = SiweFieldsView;

    open spec fn view(&self) -> SiweFieldsView {
        SiweFieldsView {
            domain: self.domain@,
            uri: self.uri@,
            chain_id: self.chain_id,
            address: self.address@,
        }
    }
}

/// What the `siwe` crate parses out of a message text, or `None` where the
/// text is not a well-formed SIWE message.
pub uninterp spec fn siwe_parse(text: Seq<char>) -> Option<SiweFieldsView>;

/// Parses a SIWE message with `siwe::Message`'s `FromStr` and hands out its
/// domain (as written), URI, chain id and address. The contract claims that
/// the outcome is a function of the text, named `siwe_parse`, and that the
/// address has 20 bytes, as the field's type `[u8; 20]` shows.
#[verifier::external_body]
fn parse_siwe(text: &str) -> (r: Option<SiweFields>)
    ensures
        match r {
            Some(f) => siwe_parse(text@) == Some(f@) && f@.address.len() == 20,
            None => siwe_parse(text@) is None,
        },
{
    match text.parse::<siwe::Message>() {
        Ok(m) => Some(
            SiweFields {
                domain: m.domain.as_str().to_string(),
                uri: m.uri.as_str().to_string(),
                chain_id: m.chain_id,
                address: m.address.to_vec(),
            },
        ),
        Err(_) => None,
    }
}

/// The value of an ASCII hex digit byte, either case.
pub open spec fn hex_value(b: u8) -> Option<u8> {
    if 48 <= b <= 57 {
        Some((b - 48) as u8)
    } else if 97 <= b <= 102 {
        Some((b - 97 + 10) as u8)
    } else if 65 <= b <= 70 {
        Some((b - 65 + 10) as u8)
    } else {
        None
    }
}

/// The bytes that hex text stands for, two digits per byte, high half
/// first; none where the text has an odd length or a byte that is not a
/// hex digit.
pub open spec fn hex_decoded(t: Seq<u8>) -> Option<Seq<u8>>
    decreases t.len(),
{
    if t.len() == 0 {
        Some(Seq::empty())
    } else if t.len() == 1 {
        None
    } else {
        match (hex_value(t[0]), hex_value(t[1]), hex_decoded(t.skip(2))) {
            (Some(h), Some(l), Some(rest)) => Some(seq![(h * 16 + l) as u8] + rest),
            _ => None,
        }
    }
}

/// Calls `hex::decode`, which turns hex text (either case) into bytes and
/// fails on an odd length or a byte that is not a hex digit, as its source
/// shows.
#[verifier::external_body]
fn hex_decode(text: &[u8]) -> (r: Option<Vec<u8>>)
    ensures
        match r {
            Some(v) => hex_decoded(text@) == Some(v@),
            None => hex_decoded(text@) is None,
        },
{
    match hex::decode(text) {
        Ok(v) => Some(v),
        Err(_) => None,
    }
}

/// The signature bytes that a signature text stands for: hex, with or
/// without a leading `0x`.
pub open spec fn signature_bytes(sig: Seq<char>) -> Option<Seq<u8>> {
    let b = vstd::utf8::encode_utf8(sig);
    if b.len() >= 2 && b[0] == 48 && b[1] == 120 {
        hex_decoded(b.skip(2))
    } else {
        hex_decoded(b)
    }
}

/// Whether `sig`, 65 bytes, is a valid EIP-191 signature of the SIWE
/// message `text` by the address the message names, as the `siwe` crate
/// decides it.
pub uninterp spec fn siwe_signature_ok(text: Seq<char>, sig: Seq<u8>) -> bool;

/// Parses the SIWE message with `siwe::Message`'s `FromStr` and checks the
/// signature with `siwe::Message::verify_eip191`, which recovers the
/// signing key from the signature over the message's EIP-191 hash and
/// compares its address with the message's. The contract claims only that
/// the answer is a function of the text and the signature, named
/// `siwe_signature_ok`.
#[verifier::external_body]
fn siwe_signature_valid(text: &str, sig: &[u8]) -> (r: bool)
    requires
        sig@.len() == 65,
    ensures
        r == siwe_signature_ok(text@, sig@),
{
    match text.parse::<siwe::Message>() {
        Ok(m) => m.verify_eip191(sig.try_into().unwrap()).is_ok(),
        Err(_) => false,
    }
}

/// The EIP-55 checksummed text of an address.
pub uninterp spec fn eip55_of(addr: Seq<u8>) -> Seq<char>;

/// Calls `siwe::eip55`, which writes `0x` and the address's lowercase hex
/// digits, each letter turned to upper case where the Keccak-256 hash of
/// the lowercase hex says so. The contract claims that the text is named
/// `eip55_of`, starts with `0x`, and is `0x` and the lowercase hex of the
/// address once its letters are lowered; which letters are upper case is
/// not restated.
#[verifier::external_body]
fn checksum_address(addr: &[u8]) -> (r: String)
    requires
        addr@.len() == 20,
    ensures
        r@ == eip55_of(addr@),
        r@.take(2) == "0x"@,
        r@.map_values(|c: char| ascii_lower_char(c)) == "0x"@ + hex_lower(addr@),
{
    siwe::eip55(<&[u8; 20]>::try_from(addr).unwrap())
}

/// The check of a SIWE message against the relay's domain, URI and chain,
/// and of its signature: the signer's address in EIP-55 form, or the
/// reason it fails. The domain is compared without regard to ASCII case,
/// the URI exactly.
pub open spec fn siwe_verdict(
    domain: Seq<char>,
    uri: Seq<char>,
    chain_id: u64,
    message: Seq<char>,
    signature: Seq<char>,
) -> Result<Seq<char>, Seq<char>> {
    match siwe_parse(message) {
        None => Err("invalid SIWE message format"@),
        Some(m) => if !eq_ascii_case_insensitive(
            vstd::utf8::encode_utf8(m.domain),
            vstd::utf8::encode_utf8(domain),
        ) || m.uri != uri {
            Err("domain or uri mismatch"@)
        } else if m.chain_id != chain_id {
            Err("chain id mismatch"@)
        } else {
            match signature_bytes(signature) {
                Some(sig) => if sig.len() == 65 && siwe_signature_ok(message, sig) {
                    Ok(eip55_of(m.address))
                } else {
                    Err("invalid signature"@)
                },
                None => Err("invalid signature"@),
            }
        },
    }
}

/// The challenge for chain 1 is the text `siwe_challenge_message` builds.
pub proof fn law_chain_one_challenge(domain: Seq<char>, uri: Seq<char>, nonce: Seq<char>, issued_at: Seq<char>)
    ensures
        challenge_text(domain, uri, decimal(1), nonce, issued_at) == challenge_text(
            domain,
            uri,
            "1"@,
            nonce,
            issued_at,
        ),
{
    reveal_strlit("1");
    assert(decimal(1) =~= "1"@);
}

/// What handling an `AUTH` payload `p` for connection `conn_id` with
/// authenticator `a` does to the state (`old` to `new`) and answers (`r`):
/// without `message` or `signature` it fails and changes nothing; otherwise
/// it answers with an `OK` that carries a random id, marks the open
/// connection as authenticated by the address where the SIWE check passes,
/// and gives the reason where it fails.
pub open spec fn auth_handled(
    a: SiweAuthenticator,
    p: AuthPayload,
    old: AppState,
    new: AppState,
    conn_id: u128,
    r: Result<OutgoingMessage, &'static str>,
) -> bool {
    &&& p.message is None ==> r == Err::<OutgoingMessage, &'static str>("missing message field")
    &&& (p.message is Some && p.signature is None) ==> r == Err::<OutgoingMessage, &'static str>(
        "missing signature field",
    )
    &&& (p.message is None || p.signature is None) ==> new == old
    &&& (p.message is Some && p.signature is Some) ==> {
        let verdict = a.verdict(p.message->0@, p.signature->0@);
        &&& new.count() == old.count()
        &&& new.settings() == old.settings()
        &&& forall|r: Seq<char>| #[trigger] new.room(r) == old.room(r)
        &&& forall|id: u128| id != conn_id ==> #[trigger] new.conn(id) == old.conn(id)
        &&& match verdict {
            Ok(addr) => {
                &&& r matches Ok(OutgoingMessage::OkReply { id, status, message }) && uuid_v4_text(
                    id@,
                ) && status && message@ == "SIWE authenticated as "@ + addr
                &&& match old.conn(conn_id) {
                    Some(c) => {
                        &&& new.conn(conn_id) is Some
                        &&& new.conn(conn_id)->0.id == c.id
                        &&& new.conn(conn_id)->0.subscriptions == c.subscriptions
                        &&& new.conn(conn_id)->0.auth_state is SiweAddress
                        &&& new.conn(conn_id)->0.auth_state->SiweAddress_0@ == addr
                    },
                    None => new.conn(conn_id) is None,
                }
            },
            Err(reason) => {
                &&& r matches Ok(OutgoingMessage::OkReply { id, status, message }) && uuid_v4_text(
                    id@,
                ) && !status && message@ == "SIWE failed: "@ + reason
                &&& new.conn(conn_id) == old.conn(conn_id)
            },
        }
    }
}

/// Checks SIWE messages for one domain, URI and chain.
pub struct SiweAuthenticator {
    domain: String,
    uri: String,
    chain_id: u64,
}

impl SiweAuthenticator {
    pub closed spec fn domain_spec(&self) -> Seq<char> {
        self.domain@
    }

    pub closed spec fn uri_spec(&self) -> Seq<char> {
        self.uri@
    }

    pub closed spec fn chain_spec(&self) -> u64 {
        self.chain_id
    }

    /// What checking `message` and its `signature` against this
    /// authenticator gives.
    pub open spec fn verdict(&self, message: Seq<char>, signature: Seq<char>) -> Result<
        Seq<char>,
        Seq<char>,
    > {
        siwe_verdict(self.domain_spec(), self.uri_spec(), self.chain_spec(), message, signature)
    }

    pub fn new(domain: String, uri: String, chain_id: u64) -> (a: Self)
        ensures
            a.domain_spec() == domain@,
            a.uri_spec() == uri@,
            a.chain_spec() == chain_id,
    {
        SiweAuthenticator { domain, uri, chain_id }
    }

    /// The challenge text for a client: domain, URI, chain id, `nonce` and
    /// the issue time in RFC 3339 form.
    pub fn generate_challenge(&self, nonce: &str, issued_at: &IssuedAt) -> (s: String)
        ensures
            s@ == challenge_text(
                self.domain_spec(),
                self.uri_spec(),
                decimal(self.chain_spec() as nat),
                nonce@,
                issued_at.rfc3339(),
            ),
    {
        let chain = decimal_string(self.chain_id);
        challenge_with_chain(
            self.domain.as_str(),
            self.uri.as_str(),
            chain.as_str(),
            nonce,
            issued_at.to_rfc3339(),
        )
    }

    /// Checks a SIWE message and its signature: the message must parse,
    /// name this domain (ASCII case aside) and URI, and this chain, and the
    /// signature (hex, with or without `0x`) must be a valid signature of it
    /// by the address it names. Gives that address in EIP-55 form.
    pub fn verify_siwe(&self, message_str: &str, signature_hex: &str) -> (r: Result<
        String,
        &'static str,
    >)
        ensures
            match r {
                Ok(a) => self.verdict(message_str@, signature_hex@) == Ok::<Seq<char>, Seq<char>>(
                    a@,
                ),
                Err(e) => self.verdict(message_str@, signature_hex@) == Err::<
                    Seq<char>,
                    Seq<char>,
                >(e@),
            },
            r matches Ok(a) ==> a@.len() == 42 && a@.take(2) == "0x"@,
    {
        proof {
            reveal_strlit("invalid SIWE message format");
            reveal_strlit("domain or uri mismatch");
            reveal_strlit("chain id mismatch");
            reveal_strlit("invalid signature");
        }
        let message = match parse_siwe(message_str) {
            Some(m) => m,
            None => {
                return Err("invalid SIWE message format");
            },
        };
        if !eq_ignore_ascii_case(message.domain.as_str(), self.domain.as_str()) || !str_eq(
            message.uri.as_str(),
            self.uri.as_str(),
        ) {
            return Err("domain or uri mismatch");
        }
        if message.chain_id != self.chain_id {
            return Err("chain id mismatch");
        }
        let sig_text = signature_hex.as_bytes();
        let decoded = if sig_text.len() >= 2 && sig_text[0] == 48 && sig_text[1] == 120 {
            let mut rest: Vec<u8> = Vec::new();
            for i in 2..sig_text.len()
                invariant
                    2 <= sig_text@.len(),
                    rest@ == sig_text@.subrange(2, i as int),
            {
                rest.push(sig_text[i]);
                assert(rest@ =~= sig_text@.subrange(2, i + 1));
            }
            assert(rest@ =~= sig_text@.skip(2));
            hex_decode(rest.as_slice())
        } else {
            hex_decode(sig_text)
        };
        let sig = match decoded {
            Some(b) => b,
            None => {
                return Err("invalid signature");
            },
        };
        if sig.len() != 65 || !siwe_signature_valid(message_str, sig.as_slice()) {
            return Err("invalid signature");
        }
        let address = checksum_address(message.address.as_slice());
        proof {
            reveal_strlit("0x");
            crate::text::lemma_hex_lower_len(message.address@);
            assert(address@.len() == address@.map_values(|c: char| ascii_lower_char(c)).len());
        }
        Ok(address)
    }

    /// Handles an `AUTH` message for connection `conn_id`: both `message`
    /// and `signature` must be strings. Where the SIWE check passes, the
    /// connection (if open) is marked as authenticated by the address, and
    /// the answer is a positive `OK`; where it fails, the answer is a
    /// negative `OK` that gives the reason. The `OK` carries a random id.
    pub fn handle_auth_message(
        &self,
        auth_event: &AuthPayload,
        state: &mut AppState,
        conn_id: u128,
    ) -> (r: Result<OutgoingMessage, &'static str>)
        ensures
            auth_handled(*self, *auth_event, *old(state), *final(state), conn_id, r),
    {
        let message_str = match &auth_event.message {
            Some(m) => m,
            None => {
                return Err("missing message field");
            },
        };
        let signature = match &auth_event.signature {
            Some(s) => s,
            None => {
                return Err("missing signature field");
            },
        };
        match self.verify_siwe(message_str.as_str(), signature.as_str()) {
            Ok(address) => {
                match state.take_connection(conn_id) {
                    Some(conn) => {
                        let updated = crate::state::ConnectionState {
                            id: conn.id,
                            auth_state: AuthState::SiweAddress(address.clone()),
                            subscriptions: conn.subscriptions,
                        };
                        state.put_connection(updated);
                    },
                    None => {},
                }
                let mut text = String::from_str("SIWE authenticated as ");
                text.append(address.as_str());
                let id = random_uuid();
                Ok(OutgoingMessage::ok(id.as_str(), true, text.as_str()))
            },
            Err(e) => {
                let mut text = String::from_str("SIWE failed: ");
                text.append(e);
                let id = random_uuid();
                Ok(OutgoingMessage::ok(id.as_str(), false, text.as_str()))
            },
        }
    }

    /// The challenge message a new connection receives, for a given nonce
    /// and issue time: `["AUTH", "challenge", <challenge as a JSON string>]`.
    pub fn challenge_envelope(&self, nonce: &str, issued_at: &IssuedAt) -> (s: String)
        ensures
            s@ == "[\"AUTH\", \"challenge\", "@ + json_string(
                challenge_text(
                    self.domain_spec(),
                    self.uri_spec(),
                    decimal(self.chain_spec() as nat),
                    nonce@,
                    issued_at.rfc3339(),
                ),
            ) + "]"@,
    {
        let challenge = self.generate_challenge(nonce, issued_at);
        let mut msg = String::from_str("[\"AUTH\", \"challenge\", ");
        msg.append(json_quote(challenge.as_str()).as_str());
        msg.append("]");
        msg
    }

    /// The challenge message for a new connection, with a random nonce and
    /// the current time; it is always given.
    pub fn create_challenge(&self) -> (r: Result<String, AppError>)
        ensures
            r matches Ok(s) ==> exists|nonce: Seq<char>, secs: i64, nanos: u32|
                #![auto]
                uuid_v4_text(nonce) && rfc3339_of(secs, nanos) is Some && s@
                    == "[\"AUTH\", \"challenge\", "@ + json_string(
                    challenge_text(
                        self.domain_spec(),
                        self.uri_spec(),
                        decimal(self.chain_spec() as nat),
                        nonce,
                        rfc3339_of(secs, nanos)->0,
                    ),
                ) + "]"@,
            r is Ok,
    {
        let nonce = random_uuid();
        let (secs, nanos) = utc_now();
        match IssuedAt::from_timestamp(secs, nanos) {
            Some(issued_at) => {
                let s = self.challenge_envelope(nonce.as_str(), &issued_at);
                assert(issued_at.rfc3339() == rfc3339_of(secs, nanos)->0);
                assert(uuid_v4_text(nonce@) && rfc3339_of(secs, nanos) is Some && s@
                    == "[\"AUTH\", \"challenge\", "@ + json_string(
                    challenge_text(
                        self.domain_spec(),
                        self.uri_spec(),
                        decimal(self.chain_spec() as nat),
                        nonce@,
                        rfc3339_of(secs, nanos)->0,
                    ),
                ) + "]"@);
                Ok(s)
            },
            None => Err(AppError::Internal(String::from_str("issue time out of range"))),
        }
    }
}

} // verus!
