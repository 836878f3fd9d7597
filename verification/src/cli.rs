//! What the command line takes apart and decides.
use crate::control_msg::JoinRejection;
use crate::control_store::JoinRequest;
use crate::endpoint;
use crate::lines;
use crate::orders;
use crate::record::ChildKind;
use crate::routed;
use crate::routing::{EndpointAddr, Transport};
use crate::text;
use crate::wire::{LedgerPubKey, OperatorPubKey, PaymentOrder};
use vstd::prelude::*;

verus! {

/// For how long a join request stands where nothing else is said, in seconds.
pub const JOIN_TTL_SECONDS: u64 = 3600;

/// The peers of a reconciliation: those that were named, else this node alone.
pub fn resolve_peers(data_dir: &String, peer: Vec<String>) -> (r: Vec<String>)
    ensures
        if peer@.len() == 0 {
            r@ == seq![*data_dir]
        } else {
            r@ == peer@
        },
{
    if peer.len() == 0 {
        let mut r: Vec<String> = Vec::new();
        r.push(data_dir.clone());
        assert(r@ =~= seq![*data_dir]);
        r
    } else {
        peer
    }
}

/// Read the optional kind of a child; a user where none is named.
pub fn parse_kind(kind: &Option<String>) -> (r: Result<ChildKind, String>)
    ensures
        match *kind {
            None => r == Ok::<ChildKind, String>(ChildKind::User),
            Some(name) => if name@ == "user"@ {
                r == Ok::<ChildKind, String>(ChildKind::User)
            } else if name@ == "node"@ {
                r == Ok::<ChildKind, String>(ChildKind::Node)
            } else {
                r matches Err(m) && m@ == "invalid kind '"@ + name@
                    + "' (expected 'node' or 'user')"@
            },
        },
{
    match kind {
        None => Ok(ChildKind::User),
        Some(name) => {
            if text::text_is(name, "user") {
                Ok(ChildKind::User)
            } else if text::text_is(name, "node") {
                Ok(ChildKind::Node)
            } else {
                Err(
                    text::between(
                        "invalid kind '",
                        name.as_str(),
                        "' (expected 'node' or 'user')",
                    ),
                )
            }
        },
    }
}

/// The value of a hexadecimal digit, upper or lower case.
pub open spec fn hex_value(c: char) -> Option<u8> {
    let n = c as u32;
    if 48 <= n <= 57 {
        Some((n - 48) as u8)
    } else if 65 <= n <= 70 {
        Some((n - 55) as u8)
    } else if 97 <= n <= 102 {
        Some((n - 87) as u8)
    } else {
        None
    }
}

/// The value of a hexadecimal digit, upper or lower case.
fn digit_value(c: char) -> (r: Option<u8>)
    ensures
        r == hex_value(c),
{
    let n: u32 = c as u32;
    if 48 <= n && n <= 57 {
        Some((n - 48) as u8)
    } else if 65 <= n && n <= 70 {
        Some((n - 55) as u8)
    } else if 97 <= n && n <= 102 {
        Some((n - 87) as u8)
    } else {
        None
    }
}

/// How many bytes a character takes.
pub open spec fn width(c: char) -> nat {
    if (c as u32) < 0x80 {
        1
    } else if (c as u32) < 0x800 {
        2
    } else if (c as u32) < 0x10000 {
        3
    } else {
        4
    }
}

/// Whether a text takes an even number of bytes.
pub open spec fn even_bytes(s: Seq<char>) -> bool
    decreases s.len(),
{
    if s.len() == 0 {
        true
    } else if width(s.last()) % 2 == 0 {
        even_bytes(s.drop_last())
    } else {
        !even_bytes(s.drop_last())
    }
}

/// The text without its white space.
pub open spec fn cleaned(s: Seq<char>) -> Seq<char> {
    s.filter(|c: char| !lines::is_white(c))
}

/// All characters are hexadecimal digits.
pub open spec fn all_hex(s: Seq<char>) -> bool {
    forall|i: int| 0 <= i < s.len() ==> hex_value(#[trigger] s[i]) is Some
}

/// The bytes are those of the digits, two by two.
pub open spec fn hex_of(digits: Seq<char>, bytes: Seq<u8>) -> bool {
    &&& digits.len() == 2 * bytes.len()
    &&& forall|i: int|
        0 <= i < bytes.len() ==> #[trigger] bytes[i] == 16 * hex_value(digits[2 * i])->0
            + hex_value(digits[2 * i + 1])->0
}

/// Decode hexadecimal text; white space does not count.
pub fn decode_hex(input: &str) -> (r: Result<Vec<u8>, String>)
    ensures
        ({
            let digits = cleaned(input@);
            match r {
                Ok(bytes) => even_bytes(digits) && all_hex(digits) && hex_of(digits, bytes@),
                Err(m) => if !even_bytes(digits) {
                    m@ == "hex payload must have an even number of digits"@
                } else {
                    !all_hex(digits) && m@ == "hex payload contains a non-hex character"@
                },
            }
        }),
{
    let chars: Vec<char> = lines::chars_of(input);
    let mut digits: Vec<char> = Vec::new();
    let mut even: bool = true;
    let mut i: usize = 0;
    proof {
        reveal(Seq::filter);
        assert(input@.take(0) =~= Seq::<char>::empty());
    }
    while i < chars.len()
        invariant
            chars@ == input@,
            i <= chars@.len(),
            digits@ == cleaned(input@.take(i as int)),
            even == even_bytes(digits@),
        decreases chars@.len() - i,
    {
        proof {
            reveal(Seq::filter);
            assert(input@.take(i + 1).drop_last() =~= input@.take(i as int));
            assert(input@.take(i + 1).last() == input@[i as int]);
        }
        let c: char = chars[i];
        if !lines::white(c) {
            let ghost before = digits@;
            digits.push(c);
            assert(digits@.drop_last() =~= before);
            let n: u32 = c as u32;
            let odd: bool = n < 0x80 || (0x800 <= n && n < 0x10000);
            if odd {
                even = !even;
            }
        }
        i = i + 1;
    }
    assert(input@.take(i as int) =~= input@);
    if !even {
        return Err("hex payload must have an even number of digits".to_owned());
    }
    let mut k: usize = 0;
    while k < digits.len()
        invariant
            k <= digits@.len(),
            digits@ == cleaned(input@),
            even_bytes(digits@),
            forall|j: int| 0 <= j < k ==> hex_value(#[trigger] digits@[j]) is Some,
        decreases digits@.len() - k,
    {
        if digit_value(digits[k]).is_none() {
            assert(hex_value(digits@[k as int]) is None);
            return Err("hex payload contains a non-hex character".to_owned());
        }
        k = k + 1;
    }
    proof {
        lemma_hex_is_even(digits@);
    }
    let mut bytes: Vec<u8> = Vec::new();
    let mut j: usize = 0;
    while j + 1 < digits.len()
        invariant
            j <= digits@.len(),
            digits@.len() % 2 == 0,
            j == 2 * bytes@.len(),
            all_hex(digits@),
            forall|a: int|
                0 <= a < bytes@.len() ==> #[trigger] bytes@[a] == 16 * hex_value(
                    digits@[2 * a],
                )->0 + hex_value(digits@[2 * a + 1])->0,
        decreases digits@.len() - j,
    {
        assert(hex_value(digits@[j as int]) is Some);
        assert(hex_value(digits@[j + 1]) is Some);
        let high: u8 = match digit_value(digits[j]) {
            Some(v) => v,
            None => 0,
        };
        let low: u8 = match digit_value(digits[j + 1]) {
            Some(v) => v,
            None => 0,
        };
        assert(high <= 15 && low <= 15);
        bytes.push(16 * high + low);
        j = j + 2;
    }
    Ok(bytes)
}

proof fn lemma_hex_is_even(digits: Seq<char>)
    requires
        all_hex(digits),
    ensures
        even_bytes(digits) == (digits.len() % 2 == 0),
    decreases digits.len(),
{
    if digits.len() > 0 {
        let init = digits.drop_last();
        assert forall|i: int| 0 <= i < init.len() implies hex_value(#[trigger] init[i]) is Some by {
            assert(init[i] == digits[i]);
        }
        lemma_hex_is_even(init);
        assert(hex_value(digits[digits.len() - 1]) is Some);
    }
}

/// What was written in lowercase hexadecimal is read back, and nothing else is
/// read from it.
pub proof fn law_hex_round_trip(bytes: Seq<u8>, got: Seq<u8>)
    ensures
        cleaned(text::hex_lower(bytes)) == text::hex_lower(bytes),
        even_bytes(text::hex_lower(bytes)),
        all_hex(text::hex_lower(bytes)),
        hex_of(text::hex_lower(bytes), bytes),
        hex_of(text::hex_lower(bytes), got) ==> got == bytes,
{
    lemma_hex_text(bytes);
    let digits = text::hex_lower(bytes);
    lemma_hex_is_even(digits);
    lemma_nothing_white(digits);
    if hex_of(digits, got) {
        assert forall|i: int| 0 <= i < got.len() implies got[i] == bytes[i] by {
            assert(got[i] == 16 * hex_value(digits[2 * i])->0 + hex_value(digits[2 * i + 1])->0);
            assert(bytes[i] == 16 * hex_value(digits[2 * i])->0 + hex_value(digits[2 * i + 1])->0);
        }
        assert(got =~= bytes);
    }
}

proof fn lemma_nothing_white(s: Seq<char>)
    requires
        all_hex(s),
    ensures
        cleaned(s) == s,
    decreases s.len(),
{
    reveal(Seq::filter);
    if s.len() > 0 {
        let init = s.drop_last();
        assert forall|i: int| 0 <= i < init.len() implies hex_value(#[trigger] init[i]) is Some by {
            assert(init[i] == s[i]);
        }
        lemma_nothing_white(init);
        assert(hex_value(s[s.len() - 1]) is Some);
        assert(cleaned(s) =~= s);
    } else {
        assert(cleaned(s) =~= s);
    }
}

proof fn lemma_hex_text(bytes: Seq<u8>)
    ensures
        text::hex_lower(bytes).len() == 2 * bytes.len(),
        all_hex(text::hex_lower(bytes)),
        hex_of(text::hex_lower(bytes), bytes),
    decreases bytes.len(),
{
    if bytes.len() > 0 {
        let init = bytes.drop_last();
        lemma_hex_text(init);
        let digits = text::hex_lower(bytes);
        let before = text::hex_lower(init);
        let last = bytes.last();
        assert(digits =~= before.push(text::hex_char((last / 16) as nat)).push(
            text::hex_char((last % 16) as nat),
        ));
        assert(hex_value(text::hex_char((last / 16) as nat)) == Some((last / 16) as u8));
        assert(hex_value(text::hex_char((last % 16) as nat)) == Some((last % 16) as u8));
        assert forall|i: int| 0 <= i < digits.len() implies hex_value(
            #[trigger] digits[i],
        ) is Some by {
            if i < before.len() {
                assert(digits[i] == before[i]);
            }
        }
        assert forall|i: int| 0 <= i < bytes.len() implies #[trigger] bytes[i] == 16 * hex_value(
            digits[2 * i],
        )->0 + hex_value(digits[2 * i + 1])->0 by {
            if i < init.len() {
                assert(init[i] == bytes[i]);
                assert(digits[2 * i] == before[2 * i]);
                assert(digits[2 * i + 1] == before[2 * i + 1]);
            }
        }
    }
}

/// Decode a key of exactly 32 bytes.
pub fn parse_hex32(raw: &str, label: &str) -> (r: Result<[u8; 32], String>)
    ensures
        ({
            let digits = cleaned(raw@);
            match r {
                Ok(key) => even_bytes(digits) && all_hex(digits) && hex_of(digits, key@),
                Err(m) => if !even_bytes(digits) {
                    m@ == "hex payload must have an even number of digits"@
                } else if !all_hex(digits) {
                    m@ == "hex payload contains a non-hex character"@
                } else {
                    digits.len() != 64 && m@ == label@
                        + " key must be exactly 32 bytes (64 hex digits), found "@ + text::decimal(
                        (digits.len() / 2) as nat,
                    )
                },
            }
        }),
{
    let bytes: Vec<u8> = match decode_hex(raw) {
        Ok(bytes) => bytes,
        Err(m) => return Err(m),
    };
    if bytes.len() != 32 {
        let mut m: String = label.to_owned();
        m.append(" key must be exactly 32 bytes (64 hex digits), found ");
        m.append(text::u64_text(bytes.len() as u64).as_str());
        return Err(m);
    }
    let mut key: [u8; 32] = [0u8; 32];
    let mut i: usize = 0;
    while i < 32
        invariant
            i <= 32,
            bytes@.len() == 32,
            forall|j: int| 0 <= j < i ==> #[trigger] key@[j] == bytes@[j],
        decreases 32 - i,
    {
        key[i] = bytes[i];
        i = i + 1;
    }
    assert(key@ =~= bytes@);
    Ok(key)
}

/// The payload of a message: hexadecimal text before plain text, and nothing
/// where neither is given.
pub fn message_payload(plain: &Option<String>, hex: &Option<String>) -> (r: Result<Vec<u8>, String>)
    ensures
        match (*plain, *hex) {
            (_, Some(digits)) => {
                let shown = cleaned(digits@);
                match r {
                    Ok(bytes) => even_bytes(shown) && all_hex(shown) && hex_of(shown, bytes@),
                    Err(m) => if !even_bytes(shown) {
                        m@ == "hex payload must have an even number of digits"@
                    } else {
                        !all_hex(shown) && m@ == "hex payload contains a non-hex character"@
                    },
                }
            },
            (Some(words), None) => r matches Ok(bytes) && bytes@ == vstd::utf8::encode_utf8(words@),
            (None, None) => r matches Ok(bytes) && bytes@.len() == 0,
        },
{
    match hex {
        Some(digits) => decode_hex(digits.as_str()),
        None => match plain {
            Some(words) => Ok(vstd::slice::slice_to_vec(words.as_str().as_bytes())),
            None => Ok(Vec::new()),
        },
    }
}

/// A next-hop hint, taken apart.
#[derive(Debug)]
pub struct Hint {
    /// The neighbor's canonical id.
    pub node: String,
    /// The transports, each still as written, up to the first that has no known
    /// prefix.
    pub transports: Vec<Transport>,
    /// What is said of that one.
    pub bad: Option<String>,
}

/// The transport that a part of a hint names by its prefix.
pub open spec fn transport_of(part: Seq<char>, got: Transport) -> bool {
    if lines::starts_with(part, "ip:"@) {
        got matches Transport::Ip(rest) && rest@ == part.skip("ip:"@.len() as int)
    } else if lines::starts_with(part, "relay:"@) {
        got matches Transport::Relay(rest) && rest@ == part.skip("relay:"@.len() as int)
    } else {
        &&& lines::starts_with(part, "custom:"@)
        &&& got matches Transport::Custom(rest)
        &&& rest@ == part.skip("custom:"@.len() as int)
    }
}

/// The part has a known prefix.
pub open spec fn is_known(part: Seq<char>) -> bool {
    lines::starts_with(part, "ip:"@) || lines::starts_with(part, "relay:"@) || lines::starts_with(
        part,
        "custom:"@,
    )
}

fn read_part(part: &String) -> (r: Option<Transport>)
    ensures
        match r {
            Some(got) => is_known(part@) && transport_of(part@, got),
            None => !is_known(part@),
        },
{
    match lines::strip_prefix(part.as_str(), "ip:") {
        Some(rest) => return Some(Transport::Ip(rest)),
        None => {},
    }
    match lines::strip_prefix(part.as_str(), "relay:") {
        Some(rest) => return Some(Transport::Relay(rest)),
        None => {},
    }
    match lines::strip_prefix(part.as_str(), "custom:") {
        Some(rest) => return Some(Transport::Custom(rest)),
        None => {},
    }
    None
}

/// Each transport is that of its part.
pub open spec fn all_read(parts: Seq<Seq<char>>, got: Seq<Transport>) -> bool {
    forall|i: int| 0 <= i < got.len() ==> #[trigger] ok_at(parts, got, i)
}

/// Transport `i` is that of part `i`.
pub open spec fn ok_at(parts: Seq<Seq<char>>, got: Seq<Transport>, i: int) -> bool {
    is_known(parts[i]) && transport_of(parts[i], got[i])
}

proof fn lemma_read_more(parts: Seq<Seq<char>>, got: Seq<Transport>, next: Transport)
    requires
        all_read(parts, got),
        is_known(parts[got.len() as int]),
        transport_of(parts[got.len() as int], next),
    ensures
        all_read(parts, got.push(next)),
{
    let more = got.push(next);
    let i = choose|i: int| 0 <= i < more.len() && !ok_at(parts, more, i);
    if !all_read(parts, more) {
        assert(0 <= i < more.len());
        if i < got.len() {
            assert(more[i] == got[i]);
            assert(ok_at(parts, got, i));
        } else {
            assert(more[i] == next);
        }
        assert(ok_at(parts, more, i));
    }
}

/// The transports are those of the parts, up to the first that has no known
/// prefix, of which `bad` speaks.
pub open spec fn hint_parts(
    parts: Seq<Seq<char>>,
    got: Seq<Transport>,
    bad: Option<String>,
) -> bool {
    &&& got.len() <= parts.len()
    &&& all_read(parts, got)
    &&& match bad {
        None => got.len() == parts.len(),
        Some(m) => got.len() < parts.len() && !is_known(parts[got.len() as int]) && m@
            == "hint transport '"@ + parts[got.len() as int]
            + "' must start with ip:, relay:, or custom:"@,
    }
}

/// The parts of a hint's address; an empty address has none.
pub open spec fn address_parts(address: Seq<char>) -> Seq<Seq<char>> {
    if lines::trimmed(address).len() == 0 {
        Seq::empty()
    } else {
        lines::trimmed_pieces(address, ',')
    }
}

/// Position `i` is that of the first `=` in the text.
pub open spec fn first_equals(raw: Seq<char>, i: int) -> bool {
    &&& 0 <= i < raw.len()
    &&& raw[i] == '='
    &&& forall|j: int| 0 <= j < i ==> #[trigger] raw[j] != '='
}

/// Take a next-hop hint `ID=ADDR` apart. The id may be written in either
/// encoding and comes back in canonical form; the address is a list of
/// transports, or empty.
pub fn parse_hint(raw: &str) -> (r: Result<Hint, String>)
    ensures
        match r {
            Ok(hint) => exists|i: int|
                {
                    &&& #[trigger] first_equals(raw@, i)
                    &&& endpoint::canonical(raw@.take(i)) == Some(hint.node@)
                    &&& hint_parts(
                        address_parts(raw@.skip(i + 1)),
                        hint.transports@,
                        hint.bad,
                    )
                },
            Err(m) => if !raw@.contains('=') {
                m@ == "hint '"@ + raw@ + "' must be ID=ADDR"@
            } else {
                exists|i: int|
                    {
                        &&& #[trigger] first_equals(raw@, i)
                        &&& endpoint::endpoint_key(raw@.take(i)) matches Err(detail)
                        &&& m@ == "hint id '"@ + raw@.take(i) + "' is not an EndpointId: "@
                            + detail
                    }
            },
        },
{
    let at: usize = match lines::find_char(raw, '=') {
        Some(at) => at,
        None => return Err(text::between("hint '", raw, "' must be ID=ADDR")),
    };
    assert(first_equals(raw@, at as int));
    let n: usize = raw.unicode_len();
    let id: String = raw.substring_char(0, at).to_owned();
    assert(id@ =~= raw@.take(at as int));
    assert(raw@.contains('=')) by {
        assert(raw@[at as int] == '=');
    }
    let node: String = match endpoint::parse_endpoint_id(&id) {
        Ok(node) => node,
        Err(bad) => {
            let mut m: String = text::between(
                "hint id '",
                id.as_str(),
                "' is not an EndpointId: ",
            );
            m.append(bad.detail.as_str());
            return Err(m);
        },
    };
    let address: String = raw.substring_char(at + 1, n).to_owned();
    assert(address@ =~= raw@.skip(at + 1));
    let mut transports: Vec<Transport> = Vec::new();
    let mut bad: Option<String> = None;
    let blank: String = lines::trim(address.as_str());
    if blank.as_str().unicode_len() > 0 {
        let parts: Vec<String> = lines::split_trimmed(address.as_str(), ',');
        let ghost wanted = lines::trimmed_pieces(address@, ',');
        let mut i: usize = 0;
        let mut stop: bool = false;
        while i < parts.len() && !stop
            invariant
                i <= parts@.len(),
                parts@.len() == wanted.len(),
                stop == (bad is Some),
                forall|j: int| 0 <= j < parts@.len() ==> (#[trigger] parts@[j])@ == wanted[j],
                transports@.len() <= parts@.len(),
                bad is None ==> transports@.len() == i,
                all_read(wanted, transports@),
                bad matches Some(m) ==> transports@.len() < parts@.len() && !is_known(
                    wanted[transports@.len() as int],
                ) && m@ == "hint transport '"@ + wanted[transports@.len() as int]
                    + "' must start with ip:, relay:, or custom:"@,
            decreases parts@.len() - i,
        {
            assert(parts@[i as int]@ == wanted[i as int]);
            match read_part(&parts[i]) {
                Some(transport) => {
                    proof {
                        lemma_read_more(wanted, transports@, transport);
                    }
                    transports.push(transport);
                },
                None => {
                    stop = true;
                    bad = Some(
                        text::between(
                            "hint transport '",
                            parts[i].as_str(),
                            "' must start with ip:, relay:, or custom:",
                        ),
                    );
                },
            }
            i = i + 1;
        }
        assert(hint_parts(wanted, transports@, bad));
    }
    assert(hint_parts(address_parts(raw@.skip(at + 1)), transports@, bad));
    Ok(Hint { node, transports, bad })
}

/// The number that hexadecimal digits of either case write.
pub open spec fn hex_number(digits: Seq<char>) -> Option<nat>
    decreases digits.len(),
{
    if digits.len() == 0 {
        Some(0)
    } else {
        let c = digits.last();
        match hex_number(digits.drop_last()) {
            None => None,
            Some(n) => if '0' <= c <= '9' {
                Some((16 * n + (c as nat - '0' as nat)) as nat)
            } else if 'a' <= c <= 'f' {
                Some((16 * n + 10 + (c as nat - 'a' as nat)) as nat)
            } else if 'A' <= c <= 'F' {
                Some((16 * n + 10 + (c as nat - 'A' as nat)) as nat)
            } else {
                None
            },
        }
    }
}

/// A number in lowercase hexadecimal digits, without leading zeros.
pub open spec fn hex_digits(n: nat) -> Seq<char>
    decreases n,
{
    if n < 16 {
        seq![text::hex_char(n)]
    } else {
        hex_digits(n / 16).push(text::hex_char(n % 16))
    }
}

/// The transport id that a text writes: hexadecimal digits, a plus sign before
/// them or not, of a number of 64 bits.
pub open spec fn transport_id(s: Seq<char>) -> Option<nat> {
    let digits = if s.len() > 0 && s[0] == '+' {
        s.skip(1)
    } else {
        s
    };
    match hex_number(digits) {
        Some(n) if digits.len() > 0 && n <= u64::MAX => Some(n),
        _ => None,
    }
}

/// Whole bytes in lowercase hexadecimal digits.
pub open spec fn is_lower_hex(s: Seq<char>) -> bool {
    &&& s.len() % 2 == 0
    &&& forall|i: int| 0 <= i < s.len() ==> '0' <= #[trigger] s[i] <= '9' || 'a' <= s[i] <= 'f'
}

/// What a custom transport address is read as: its id and its data with `_`
/// between them, the id in lowercase without leading zeros, or what is wrong
/// with it.
pub open spec fn custom_addr(addr: Seq<char>) -> Result<Seq<char>, Seq<char>> {
    match addr.index_of_first('_') {
        None => Err("missing '_' separator"@),
        Some(at) => match transport_id(addr.take(at)) {
            None => Err("invalid id"@),
            Some(id) => if is_lower_hex(addr.skip(at + 1)) {
                Ok(hex_digits(id) + addr.skip(at))
            } else {
                Err("invalid data"@)
            },
        },
    }
}

/// Calls `from_str` of the address in `iroh::TransportAddr::Custom` (through
/// `str::parse`) and renders the address with its `Display`. The contract claims
/// that the text is parted at its first `_` into an id, read as `u64::from_str_radix`
/// reads hexadecimal digits, and data in lowercase hexadecimal; that the address is
/// rendered as `<id>_<data>`; and that the first part that cannot be read is named in
/// the error's message.
#[verifier::external_body]
fn read_custom_addr(text: &str) -> (r: Result<String, String>)
    ensures
        match r {
            Ok(addr) => custom_addr(text@) == Ok::<Seq<char>, Seq<char>>(addr@),
            Err(detail) => custom_addr(text@) == Err::<Seq<char>, Seq<char>>(detail@),
        },
{
    match text.parse().map(iroh::TransportAddr::Custom) {
        Ok(iroh::TransportAddr::Custom(addr)) => Ok(addr.to_string()),
        Ok(other) => Ok(format!("{other:?}")),
        Err(err) => Err(err.to_string()),
    }
}

/// Read a transport of a hint, as far as it is not a socket address: those are
/// handed on as written.
pub fn read_transport(transport: &Transport) -> (r: Result<Transport, String>)
    ensures
        match *transport {
            Transport::Ip(_) => r == Ok::<Transport, String>(*transport),
            Transport::Relay(url) => match r {
                Ok(got) => got matches Transport::Relay(shown) && routed::relay_url(url@) == Ok::<
                    Seq<char>,
                    Seq<char>,
                >(shown@),
                Err(m) => routed::relay_url(url@) matches Err(detail) && m@
                    == "invalid relay transport '"@ + url@ + "': "@ + detail,
            },
            Transport::Custom(addr) => match r {
                Ok(got) => got matches Transport::Custom(shown) && custom_addr(addr@) == Ok::<
                    Seq<char>,
                    Seq<char>,
                >(shown@),
                Err(m) => custom_addr(addr@) matches Err(detail) && m@
                    == "invalid custom transport '"@ + addr@ + "': "@ + detail,
            },
        },
{
    match transport {
        Transport::Ip(_) => Ok(transport.copied()),
        Transport::Relay(url) => match routed::read_relay_url(url.as_str()) {
            Ok(shown) => Ok(Transport::Relay(shown)),
            Err(detail) => {
                let mut m: String = text::between("invalid relay transport '", url.as_str(), "': ");
                m.append(detail.as_str());
                Err(m)
            },
        },
        Transport::Custom(addr) => match read_custom_addr(addr.as_str()) {
            Ok(shown) => Ok(Transport::Custom(shown)),
            Err(detail) => {
                let mut m: String = text::between(
                    "invalid custom transport '",
                    addr.as_str(),
                    "': ",
                );
                m.append(detail.as_str());
                Err(m)
            },
        },
    }
}

/// The lowercase form of a text, by the standard library's rules.
pub uninterp spec fn lower_text(text: Seq<char>) -> Seq<char>;

/// Calls `str::to_lowercase`. The contract claims that the result depends on the
/// text alone.
#[verifier::external_body]
fn lowercase(text: &str) -> (r: String)
    ensures
        r@ == lower_text(text@),
{
    text.to_lowercase()
}

/// Order `i` is the first whose hash reads `target`.
pub open spec fn first_by_hash(orders: Seq<PaymentOrder>, target: Seq<char>, i: int) -> bool {
    &&& 0 <= i < orders.len()
    &&& text::hex_lower(orders[i].hash@) == target
    &&& forall|j: int|
        0 <= j < i ==> text::hex_lower((#[trigger] orders[j]).hash@) != target
}

/// No order has the hash that `target` spells.
pub open spec fn none_by_hash(orders: Seq<PaymentOrder>, target: Seq<char>) -> bool {
    forall|i: int| !#[trigger] first_by_hash(orders, target, i)
}

/// The order with a hash, written in lowercase hexadecimal, among the supplied
/// ones.
pub fn order_by_hash(orders: &Vec<PaymentOrder>, target: &String) -> (r: Result<
    PaymentOrder,
    String,
>)
    ensures
        match r {
            Ok(order) => exists|i: int| #[trigger]
                first_by_hash(orders@, target@, i) && order == orders@[i],
            Err(m) => none_by_hash(orders@, target@) && m@ == "no order with hash "@ + target@ + " in the supplied source"@,
        },
{
    let mut i: usize = 0;
    while i < orders.len()
        invariant
            i <= orders@.len(),
            forall|j: int|
                0 <= j < i ==> text::hex_lower((#[trigger] orders@[j]).hash@) != target@,
        decreases orders@.len() - i,
    {
        if text::hex_text(orders[i].hash.as_slice()) == *target {
            assert(first_by_hash(orders@, target@, i as int));
            return Ok(orders[i].copied());
        }
        i = i + 1;
    }
    Err(text::between("no order with hash ", target.as_str(), " in the supplied source"))
}

/// The order whose cascade is verified: the one given, or the one with the
/// given hash among the supplied ones.
pub fn resolve_cascade_order(
    orders: &Vec<PaymentOrder>,
    inline: Option<Result<PaymentOrder, String>>,
    order_hash: &Option<String>,
) -> (r: Result<PaymentOrder, String>)
    ensures
        match inline {
            Some(Ok(order)) => r == Ok::<PaymentOrder, String>(order),
            Some(Err(detail)) => r matches Err(m) && m@ == "invalid --order JSON: "@ + detail@,
            None => match *order_hash {
                None => r matches Err(m) && m@
                    == "provide --order <json> or --orders <file> --order-hash <hex>"@,
                Some(hash) => {
                    let target = lower_text(hash@);
                    match r {
                        Ok(order) => exists|i: int| #[trigger]
                            first_by_hash(orders@, target, i) && order == orders@[i],
                        Err(m) => none_by_hash(orders@, target) && m@ == "no order with hash "@ + target
                            + " in the supplied source"@,
                    }
                },
            },
        },
{
    match inline {
        Some(Ok(order)) => return Ok(order),
        Some(Err(detail)) => {
            let mut m: String = "invalid --order JSON: ".to_owned();
            m.append(detail.as_str());
            return Err(m);
        },
        None => {},
    }
    match order_hash {
        None => Err("provide --order <json> or --orders <file> --order-hash <hex>".to_owned()),
        Some(hash) => order_by_hash(orders, &lowercase(hash.as_str())),
    }
}

/// What is said where the strict rule finds no orders to go by.
pub fn strict_needs_orders(strict: bool, orders: &Vec<PaymentOrder>) -> (r: Option<String>)
    ensures
        match r {
            Some(m) => strict && orders@.len() == 0 && m@
                == "--strict requires an order source, but none was supplied or found"@,
            None => !strict || orders@.len() > 0,
        },
{
    if strict && orders.len() == 0 {
        Some("--strict requires an order source, but none was supplied or found".to_owned())
    } else {
        None
    }
}

/// An invite, as far as joining reads it.
#[derive(Debug)]
pub struct Invite {
    /// The node that invites.
    pub parent: String,
    /// Its operator key.
    pub operator: OperatorPubKey,
    /// The slot that is offered.
    pub slot: Option<u8>,
    /// Unix seconds of the last moment at which it stands.
    pub expiry: Option<u64>,
    /// A relay to reach it by.
    pub relay: Option<String>,
    /// A socket address to reach it by.
    pub ip: Option<String>,
}

/// How a join goes out.
#[derive(Debug)]
pub struct JoinPlan {
    /// The parent.
    pub parent: String,
    /// Its operator key, where an invite named it.
    pub pinned_operator: Option<OperatorPubKey>,
    /// The slot to ask for.
    pub desired_slot: Option<u8>,
    /// Unix seconds of the last moment at which the request stands.
    pub expiry: u64,
    /// Where to dial, where an invite says so.
    pub target: Option<EndpointAddr>,
}

/// The usual end of a join request.
pub open spec fn default_expiry(now: u64) -> u64 {
    if now + JOIN_TTL_SECONDS > u64::MAX {
        u64::MAX
    } else {
        (now + JOIN_TTL_SECONDS) as u64
    }
}

/// The relay of an invite.
pub open spec fn relay_text(invite: Invite) -> Option<Seq<char>> {
    match invite.relay {
        Some(url) => Some(url@),
        None => None,
    }
}

/// `message` says why the transports of an invite cannot be used.
pub open spec fn bad_invite(invite: Invite, message: Seq<char>) -> bool {
    exists|detail: Seq<char>| #[trigger]
        routed::invite_fault(invite.parent@, relay_text(invite), detail) && message
            == "invalid invite transport hints: "@ + detail
}

/// Plan a join from the command line: by a parent's id or by an invite, not
/// both. An invite's slot and expiry go before the others, and its transport
/// hints say where to dial.
pub fn plan_join(
    parent: Option<String>,
    invite: Option<Result<Invite, String>>,
    slot: Option<u8>,
    now: u64,
) -> (r: Result<JoinPlan, String>)
    ensures
        match (parent, invite) {
            (Some(_), Some(_)) => r matches Err(m) && m@
                == "--parent and --invite are mutually exclusive"@,
            (None, None) => r matches Err(m) && m@ == "one of --parent or --invite is required"@,
            (Some(id), None) => r == Ok::<JoinPlan, String>(
                JoinPlan {
                    parent: id,
                    pinned_operator: None,
                    desired_slot: slot,
                    expiry: default_expiry(now),
                    target: None,
                },
            ),
            (None, Some(Err(detail))) => r matches Err(m) && m@ == "invalid invite: "@ + detail@,
            (None, Some(Ok(invited))) => match r {
                Ok(plan) => {
                    &&& plan.parent == invited.parent
                    &&& plan.pinned_operator == Some(invited.operator)
                    &&& plan.desired_slot == (if invited.slot is Some {
                        invited.slot
                    } else {
                        slot
                    })
                    &&& plan.expiry == (match invited.expiry {
                        Some(expiry) => expiry,
                        None => default_expiry(now),
                    })
                    &&& if invited.relay is None && invited.ip is None {
                        plan.target is None
                    } else {
                        &&& plan.target matches Some(addr)
                        &&& endpoint::canonical(invited.parent@) == Some(addr.node@)
                        &&& routed::invite_transports(
                            match invited.relay {
                                Some(url) => Some(url@),
                                None => None,
                            },
                            match invited.ip {
                                Some(socket) => Some(socket@),
                                None => None,
                            },
                            addr.transports@,
                        )
                    }
                },
                Err(m) => {
                    &&& invited.relay is Some || invited.ip is Some
                    &&& bad_invite(invited, m@)
                },
            },
        },
{
    match (parent, invite) {
        (Some(_), Some(_)) => Err("--parent and --invite are mutually exclusive".to_owned()),
        (None, None) => Err("one of --parent or --invite is required".to_owned()),
        (Some(id), None) => Ok(
            JoinPlan {
                parent: id,
                pinned_operator: None,
                desired_slot: slot,
                expiry: now.saturating_add(JOIN_TTL_SECONDS),
                target: None,
            },
        ),
        (None, Some(Err(detail))) => {
            let mut m: String = "invalid invite: ".to_owned();
            m.append(detail.as_str());
            Err(m)
        },
        (None, Some(Ok(invited))) => {
            let expiry: u64 = match invited.expiry {
                Some(expiry) => expiry,
                None => now.saturating_add(JOIN_TTL_SECONDS),
            };
            let target: Option<EndpointAddr> = if invited.relay.is_some() || invited.ip.is_some() {
                match routed::invite_endpoint_addr(&invited.parent, &invited.relay, &invited.ip) {
                    Ok(addr) => Some(addr),
                    Err(err) => {
                        let mut m: String = "invalid invite transport hints: ".to_owned();
                        let detail: String = routed::codec_message(&err);
                        m.append(detail.as_str());
                        assert(routed::invite_fault(
                            invited.parent@,
                            relay_text(invited),
                            detail@,
                        ));
                        return Err(m);
                    },
                }
            } else {
                None
            };
            let desired_slot: Option<u8> = match invited.slot {
                Some(offered) => Some(offered),
                None => slot,
            };
            Ok(
                JoinPlan {
                    parent: invited.parent,
                    pinned_operator: Some(invited.operator),
                    desired_slot,
                    expiry,
                    target,
                },
            )
        },
    }
}

/// The join request of a plan. Only a node brings a ledger key.
pub fn join_request(
    plan: &JoinPlan,
    node: &String,
    kind: ChildKind,
    operator: OperatorPubKey,
    ledger: LedgerPubKey,
    location: Option<String>,
    now: u64,
) -> (r: JoinRequest)
    ensures
        r == (JoinRequest {
            node: *node,
            kind,
            operator,
            ledger: match kind {
                ChildKind::Node => Some(ledger),
                ChildKind::User => None,
            },
            desired_slot: plan.desired_slot,
            location_hint: location,
            nonce: now,
            expiry: plan.expiry,
        }),
{
    JoinRequest {
        node: node.clone(),
        kind,
        operator,
        ledger: match kind {
            ChildKind::Node => Some(ledger),
            ChildKind::User => None,
        },
        desired_slot: plan.desired_slot,
        location_hint: location,
        nonce: now,
        expiry: plan.expiry,
    }
}

/// The refusal that the command line sends: it answers the waiting request, or
/// none.
pub fn join_rejection(pending: Option<&JoinRequest>, node: &String, reason: &Option<String>) -> (r:
    JoinRejection)
    ensures
        r.child == *node,
        r.nonce == (match pending {
            Some(request) => request.nonce,
            None => 0,
        }),
        r.reason@ == (match *reason {
            Some(reason) => reason@,
            None => "rejected"@,
        }),
{
    JoinRejection {
        child: node.clone(),
        reason: match reason {
            Some(reason) => reason.clone(),
            None => "rejected".to_owned(),
        },
        nonce: match pending {
            Some(request) => request.nonce,
            None => 0,
        },
    }
}

/// A kind is named `node` or `user` and nothing else, and a user without a name.
pub proof fn law_kinds_are_named(kind: Option<String>, r: Result<ChildKind, String>)
    requires
        call_ensures(parse_kind, (&kind,), r),
    ensures
        kind is None ==> r == Ok::<ChildKind, String>(ChildKind::User),
        kind matches Some(name) ==> {
            &&& r == Ok::<ChildKind, String>(ChildKind::User) <==> name@ == "user"@
            &&& r == Ok::<ChildKind, String>(ChildKind::Node) <==> name@ == "node"@
        },
{
    reveal_strlit("user");
    reveal_strlit("node");
    assert("user"@[0] != "node"@[0]);
}

/// Peers that are named are taken as they are; the data directory stands in only
/// where none is.
pub proof fn law_named_peers_are_taken(data_dir: String, peer: Vec<String>, r: Vec<String>)
    requires
        call_ensures(resolve_peers, (&data_dir, peer), r),
    ensures
        peer@.len() > 0 ==> r@ == peer@,
        peer@.len() == 0 ==> r@.len() == 1 && r@[0]@ == data_dir@,
{
}

/// What was written in hexadecimal is read back: as bytes, as a message, and as a
/// key where it is one's length.
pub proof fn law_hex_is_read_back(
    bytes: Seq<u8>,
    raw: &str,
    label: &str,
    plain: Option<String>,
    digits: String,
    decoded: Result<Vec<u8>, String>,
    key: Result<[u8; 32], String>,
    payload: Result<Vec<u8>, String>,
)
    requires
        raw@ == text::hex_lower(bytes),
        digits@ == text::hex_lower(bytes),
        call_ensures(decode_hex, (raw,), decoded),
        call_ensures(parse_hex32, (raw, label), key),
        call_ensures(message_payload, (&plain, &Some(digits)), payload),
    ensures
        decoded matches Ok(got) && got@ == bytes,
        payload matches Ok(got) && got@ == bytes,
        bytes.len() == 32 ==> (key matches Ok(got) && got@ == bytes),
        bytes.len() != 32 ==> key is Err,
{
    lemma_hex_text(bytes);
    law_hex_round_trip(bytes, bytes);
    if decoded is Ok {
        law_hex_round_trip(bytes, decoded->Ok_0@);
    }
    if payload is Ok {
        law_hex_round_trip(bytes, payload->Ok_0@);
    }
    if key is Ok {
        law_hex_round_trip(bytes, key->Ok_0@);
    }
}

/// A hexadecimal digit in upper case counts as the one in lower case.
pub proof fn law_hex_has_no_case(
    lower: &str,
    upper: &str,
    a: Result<Vec<u8>, String>,
    b: Result<Vec<u8>, String>,
)
    requires
        call_ensures(decode_hex, (lower,), a),
        call_ensures(decode_hex, (upper,), b),
        lower@.len() == upper@.len(),
        forall|i: int|
            0 <= i < lower@.len() ==> ('0' <= #[trigger] lower@[i] <= '9' && upper@[i] == lower@[i])
                || ('a' <= lower@[i] <= 'f' && upper@[i] as u32 == lower@[i] as u32 - 32),
    ensures
        a is Ok <==> lower@.len() % 2 == 0,
        b is Ok <==> a is Ok,
        a is Ok ==> a->Ok_0@ == b->Ok_0@,
{
    assert forall|i: int| 0 <= i < upper@.len() implies hex_value(#[trigger] upper@[i])
        == hex_value(lower@[i]) && hex_value(lower@[i]) is Some by {}
    assert(all_hex(lower@));
    assert(all_hex(upper@));
    lemma_nothing_white(lower@);
    lemma_nothing_white(upper@);
    lemma_hex_is_even(lower@);
    lemma_hex_is_even(upper@);
    if a is Ok && b is Ok {
        let x = a->Ok_0@;
        let y = b->Ok_0@;
        assert forall|i: int| 0 <= i < x.len() implies x[i] == y[i] by {
            assert(x[i] == 16 * hex_value(lower@[2 * i])->0 + hex_value(lower@[2 * i + 1])->0);
            assert(y[i] == 16 * hex_value(upper@[2 * i])->0 + hex_value(upper@[2 * i + 1])->0);
            assert(hex_value(upper@[2 * i]) == hex_value(lower@[2 * i]));
            assert(hex_value(upper@[2 * i + 1]) == hex_value(lower@[2 * i + 1]));
        }
        assert(x =~= y);
    }
}

proof fn lemma_cleaned_apart(a: Seq<char>, b: Seq<char>)
    ensures
        cleaned(a + b) == cleaned(a) + cleaned(b),
    decreases b.len(),
{
    reveal(Seq::filter);
    if b.len() == 0 {
        assert(a + b =~= a);
        assert(cleaned(a + b) =~= cleaned(a) + cleaned(b));
    } else {
        assert((a + b).drop_last() =~= a + b.drop_last());
        lemma_cleaned_apart(a, b.drop_last());
        assert(cleaned(a + b) =~= cleaned(a) + cleaned(b));
    }
}

/// White space between hexadecimal digits does not count, and any other character
/// that is no digit spoils the text.
pub proof fn law_hex_ignores_white_space(
    raw: &str,
    spaced: &str,
    i: int,
    c: char,
    a: Result<Vec<u8>, String>,
    b: Result<Vec<u8>, String>,
)
    requires
        call_ensures(decode_hex, (raw,), a),
        call_ensures(decode_hex, (spaced,), b),
        0 <= i < spaced@.len(),
        spaced@[i] == c,
        raw@ == spaced@.take(i) + spaced@.skip(i + 1),
    ensures
        lines::is_white(c) ==> (a is Ok <==> b is Ok) && (a is Ok ==> a->Ok_0@
            == b->Ok_0@),
        !lines::is_white(c) && !('0' <= c <= '9') && !('a' <= c <= 'f') && !('A' <= c <= 'F')
            ==> b is Err,
{
    let head = spaced@.take(i);
    let tail = spaced@.skip(i + 1);
    let middle = seq![c];
    assert(spaced@ =~= head + (middle + tail));
    lemma_cleaned_apart(head, middle + tail);
    lemma_cleaned_apart(middle, tail);
    lemma_cleaned_apart(head, tail);
    lemma_cleaned_apart(Seq::<char>::empty(), middle);
    reveal(Seq::filter);
    assert(middle.drop_last() =~= Seq::<char>::empty());
    assert(cleaned(Seq::<char>::empty()) =~= Seq::<char>::empty());
    if lines::is_white(c) {
        assert(cleaned(middle) =~= Seq::<char>::empty());
        assert(cleaned(spaced@) =~= cleaned(raw@));
        if a is Ok && b is Ok {
            let x = a->Ok_0@;
            let y = b->Ok_0@;
            let digits = cleaned(raw@);
            assert forall|k: int| 0 <= k < x.len() implies x[k] == y[k] by {
                assert(x[k] == 16 * hex_value(digits[2 * k])->0 + hex_value(digits[2 * k + 1])->0);
                assert(y[k] == 16 * hex_value(digits[2 * k])->0 + hex_value(digits[2 * k + 1])->0);
            }
            assert(x =~= y);
        }
    } else {
        assert(cleaned(middle) =~= middle);
        let at = cleaned(head).len() as int;
        let digits = cleaned(spaced@);
        assert(digits[at] == c);
        if b is Ok {
            assert(hex_value(digits[at]) is Some);
        }
    }
}

/// A message is what is given in hexadecimal, or else the text's own bytes, or else
/// nothing.
pub proof fn law_messages_are_hex_or_text(
    plain: Option<String>,
    digits: &str,
    hex: String,
    decoded: Result<Vec<u8>, String>,
    both: Result<Vec<u8>, String>,
    words: Result<Vec<u8>, String>,
)
    requires
        digits@ == hex@,
        call_ensures(decode_hex, (digits,), decoded),
        call_ensures(message_payload, (&plain, &Some(hex)), both),
        call_ensures(message_payload, (&plain, &None), words),
    ensures
        both is Ok <==> decoded is Ok,
        words is Ok,
        plain matches Some(said) ==> words->Ok_0@ == vstd::utf8::encode_utf8(said@),
        plain is None ==> words->Ok_0@.len() == 0,
{
}

/// A hint is an id and an address around its first equals sign. The id is shown as
/// it is canonically written, and each transport is the part of the address that
/// its kind and a colon go before.
pub proof fn law_hints_are_an_id_and_an_address(raw: &str, i: int, k: int, r: Result<Hint, String>)
    requires
        call_ensures(parse_hint, (raw,), r),
    ensures
        r is Ok ==> raw@.contains('='),
        0 <= i < raw@.len() && raw@[i] == '=' && (forall|j: int|
            0 <= j < i ==> #[trigger] raw@[j] != '=') ==> {
            let parts = lines::trimmed_pieces(raw@.skip(i + 1), ',');
            &&& r is Err <==> endpoint::endpoint_key(raw@.take(i)) is Err
            &&& r matches Ok(hint) ==> {
                &&& endpoint::endpoint_key(raw@.take(i)) matches Ok(key) && hint.node@
                    == text::hex_lower(key@)
                &&& lines::trimmed(raw@.skip(i + 1)).len() == 0 ==> hint.transports@.len() == 0
                    && hint.bad is None
                &&& lines::trimmed(raw@.skip(i + 1)).len() > 0 ==> {
                    &&& hint.bad is None <==> hint.transports@.len() == parts.len()
                    &&& hint.transports@.len() <= parts.len()
                    &&& 0 <= k < hint.transports@.len() ==> match hint.transports@[k] {
                        Transport::Ip(rest) => parts[k] == "ip:"@ + rest@,
                        Transport::Relay(rest) => parts[k] == "relay:"@ + rest@,
                        Transport::Custom(rest) => parts[k] == "custom:"@ + rest@,
                    }
                }
            }
        },
{
    if r is Ok {
        let at = choose|at: int|
            {
                &&& #[trigger] first_equals(raw@, at)
                &&& endpoint::canonical(raw@.take(at)) == Some(r->Ok_0.node@)
                &&& hint_parts(
                    address_parts(raw@.skip(at + 1)),
                    r->Ok_0.transports@,
                    r->Ok_0.bad,
                )
            };
        assert(raw@[at] == '=');
        let hint = r->Ok_0;
        let parts = address_parts(raw@.skip(at + 1));
        if 0 <= k < hint.transports@.len() {
            assert(ok_at(parts, hint.transports@, k));
            let part = parts[k];
            assert(part =~= part.take("ip:"@.len() as int) + part.skip("ip:"@.len() as int)
                || part.len() < "ip:"@.len());
            assert(part =~= part.take("relay:"@.len() as int) + part.skip("relay:"@.len() as int)
                || part.len() < "relay:"@.len());
            assert(part =~= part.take("custom:"@.len() as int) + part.skip(
                "custom:"@.len() as int,
            ) || part.len() < "custom:"@.len());
        }
    }
    if 0 <= i < raw@.len() && raw@[i] == '=' {
        assert(raw@.contains('='));
    }
}

/// Reading a transport keeps its kind; a socket address is taken as it is.
pub proof fn law_transports_keep_their_kind(transport: Transport, r: Result<Transport, String>)
    requires
        call_ensures(read_transport, (&transport,), r),
    ensures
        transport is Ip ==> r == Ok::<Transport, String>(transport),
        r matches Ok(got) ==> (got is Ip <==> transport is Ip) && (got is Relay <==> transport
            is Relay) && (got is Custom <==> transport is Custom),
        transport matches Transport::Relay(url) ==> match routed::relay_url(url@) {
            Ok(shown) => r matches Ok(got) && (got matches Transport::Relay(read) && read@
                == shown),
            Err(_) => r is Err,
        },
        transport matches Transport::Custom(addr) ==> !addr@.contains('_') ==> r is Err,
{
    match transport {
        Transport::Custom(addr) => {
            if !addr@.contains('_') {
                addr@.index_of_first_ensures('_');
            }
        },
        _ => {},
    }
}

/// An order is found by its hash, the first one that has it, and not found exactly
/// where none has it.
pub proof fn law_orders_are_found_by_hash(
    orders: Vec<PaymentOrder>,
    target: String,
    r: Result<PaymentOrder, String>,
    i: int,
)
    requires
        call_ensures(order_by_hash, (&orders, &target), r),
    ensures
        r matches Ok(order) ==> text::hex_lower(order.hash@) == target@ && orders@.contains(order),
        0 <= i < orders@.len() && text::hex_lower(orders@[i].hash@) == target@ ==> r is Ok && (
        forall|j: int|
            0 <= j < i ==> text::hex_lower((#[trigger] orders@[j]).hash@) != target@) ==> r
            == Ok::<PaymentOrder, String>(orders@[i]),
        0 <= i < orders@.len() && text::hex_lower(orders@[i].hash@) == target@ ==> r is Ok,
{
    if r is Ok {
        let k = choose|k: int| #[trigger]
            first_by_hash(orders@, target@, k) && r->Ok_0 == orders@[k];
        assert(orders@[k] == r->Ok_0);
        if 0 <= i < orders@.len() && text::hex_lower(orders@[i].hash@) == target@ && (forall|
            j: int,
        |
            0 <= j < i ==> text::hex_lower((#[trigger] orders@[j]).hash@) != target@) {
            assert(orders@[k].hash == orders@[k].hash);
            assert(i == k);
        }
    } else if 0 <= i < orders@.len() && text::hex_lower(orders@[i].hash@) == target@ {
        lemma_some_is_first(orders@, target@, i);
        let k = choose|k: int| #[trigger] first_by_hash(orders@, target@, k);
        assert(!first_by_hash(orders@, target@, k));
    }
}

proof fn lemma_some_is_first(orders: Seq<PaymentOrder>, target: Seq<char>, i: int)
    requires
        0 <= i < orders.len(),
        text::hex_lower(orders[i].hash@) == target,
    ensures
        exists|k: int| #[trigger] first_by_hash(orders, target, k),
    decreases i,
{
    if !first_by_hash(orders, target, i) {
        let j = choose|j: int|
            0 <= j < i && text::hex_lower((#[trigger] orders[j]).hash@) == target;
        lemma_some_is_first(orders, target, j);
    }
}

/// An order that is given stands before one that is named; without either there is
/// none. A named one is looked for by its hash in lower case.
pub proof fn law_given_order_stands_first(
    orders: Vec<PaymentOrder>,
    inline: Option<Result<PaymentOrder, String>>,
    order_hash: Option<String>,
    r: Result<PaymentOrder, String>,
)
    requires
        call_ensures(resolve_cascade_order, (&orders, inline, &order_hash), r),
    ensures
        inline matches Some(given) ==> match given {
            Ok(order) => r == Ok::<PaymentOrder, String>(order),
            Err(_) => r is Err,
        },
        inline is None && order_hash is None ==> r is Err,
        inline is None && r is Ok ==> (order_hash matches Some(hash) && text::hex_lower(
            r->Ok_0.hash@,
        ) == lower_text(hash@)) && orders@.contains(r->Ok_0),
{
    if inline is None && r is Ok {
        let target = lower_text(order_hash->0@);
        let k = choose|k: int| #[trigger]
            first_by_hash(orders@, target, k) && r->Ok_0 == orders@[k];
        assert(orders@[k] == r->Ok_0);
    }
}

/// A strict run without orders is refused, and no other is.
pub proof fn law_strict_runs_need_orders(
    strict: bool,
    orders: Vec<PaymentOrder>,
    r: Option<String>,
)
    requires
        call_ensures(strict_needs_orders, (strict, &orders), r),
    ensures
        r is Some <==> strict && orders@.len() == 0,
{
}

/// A join goes to the parent that was named, or by an invite to the one that it
/// names. An invite pins the parent's operator, and what it offers of slot and time
/// stands before what was asked; a dial target comes only with its hints. One of
/// the two is needed, and not both.
pub proof fn law_joins_follow_the_invite(
    parent: Option<String>,
    invite: Option<Result<Invite, String>>,
    slot: Option<u8>,
    now: u64,
    r: Result<JoinPlan, String>,
)
    requires
        call_ensures(plan_join, (parent, invite, slot, now), r),
    ensures
        parent is Some && invite is Some ==> r is Err,
        parent is None && invite is None ==> r is Err,
        invite == Some(Err::<Invite, String>(invite->0->Err_0)) ==> r is Err,
        r matches Ok(plan) ==> {
            &&& parent matches Some(id) ==> {
                &&& plan.parent == id
                &&& plan.pinned_operator is None
                &&& plan.desired_slot == slot
                &&& plan.target is None
                &&& now <= plan.expiry <= now + 3600
                &&& plan.expiry < u64::MAX ==> plan.expiry == now + 3600
            }
            &&& parent is None ==> (invite matches Some(Ok(offer)) && {
                &&& plan.parent == offer.parent
                &&& plan.pinned_operator == Some(offer.operator)
                &&& offer.slot is Some ==> plan.desired_slot == offer.slot
                &&& offer.slot is None ==> plan.desired_slot == slot
                &&& offer.expiry matches Some(until) ==> plan.expiry == until
                &&& offer.expiry is None ==> now <= plan.expiry <= now + 3600 && (plan.expiry
                    < u64::MAX ==> plan.expiry == now + 3600)
                &&& plan.target is Some <==> offer.relay is Some || offer.ip is Some
            })
        },
        parent is Some && invite is None ==> r is Ok,
        parent is None ==> (invite matches Some(Ok(offer)) ==> (offer.relay is None && offer.ip
            is None ==> r is Ok)),
{
}

/// A join request speaks for this node with the plan's slot and time, under the
/// moment it was made as its nonce; only a node shows a ledger key. A refusal
/// answers the request of that nonce.
pub proof fn law_join_requests_say_who_asks(
    plan: JoinPlan,
    node: String,
    kind: ChildKind,
    operator: OperatorPubKey,
    ledger: LedgerPubKey,
    location: Option<String>,
    now: u64,
    request: JoinRequest,
    reason: Option<String>,
    refusal: JoinRejection,
    stray: JoinRejection,
)
    requires
        call_ensures(join_request, (&plan, &node, kind, operator, ledger, location, now), request),
        call_ensures(join_rejection, (Some(&request), &node, &reason), refusal),
        call_ensures(join_rejection, (None, &node, &reason), stray),
    ensures
        request.node@ == node@,
        request.kind == kind,
        request.operator == operator,
        kind is Node ==> request.ledger == Some(ledger),
        kind is User ==> request.ledger is None,
        request.desired_slot == plan.desired_slot,
        request.location_hint == location,
        request.nonce == now,
        request.expiry == plan.expiry,
        refusal.child@ == node@,
        refusal.nonce == request.nonce,
        reason matches Some(why) ==> refusal.reason@ == why@,
        stray.child@ == node@,
        stray.nonce == 0,
{
}

} // verus!
