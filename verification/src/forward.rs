use vstd::prelude::*;

use crate::text::{ascii_lower, char_is_ascii_alnum, char_to_ascii_lower, is_ascii_alnum, push_char};
use vstd::slice::slice_subrange;
use vstd::utf8::{
    decode_utf8, encode_scalar, encode_utf8, encode_utf8_decode_utf8, encode_utf8_valid_utf8,
    has_width_1_encoding, valid_utf8,
};

verus! {

/// The kind of market data item: order book or trade.
#[derive(Debug, Clone, Copy, PartialEq, Eq, Structural)]
pub enum ItemKind {
    /// Limit order book snapshot/update.
    Lob,
    /// Trade execution.
    Trade,
}

/// The topic segment that names a kind of item.
pub open spec fn kind_segment(kind: ItemKind) -> Seq<char> {
    match kind {
        ItemKind::Lob => seq!['l', 'o', 'b'],
        ItemKind::Trade => seq!['t', 'r', 'a', 'd', 'e'],
    }
}

impl ItemKind {
    /// Machine-readable topic segment for the kind: `"lob"` or `"trade"`.
    pub fn as_str(self) -> (s: &'static str)
        ensures
            s@ == kind_segment(self),
    {
        match self {
            ItemKind::Lob => {
                proof {
                    reveal_strlit("lob");
                }
                "lob"
            },
            ItemKind::Trade => {
                proof {
                    reveal_strlit("trade");
                }
                "trade"
            },
        }
    }
}

/// The topic segment for an instrument symbol: its ASCII letters and digits,
/// in order and in lower case; every other character is dropped.
pub open spec fn normalized(s: Seq<char>) -> Seq<char>
    decreases s.len(),
{
    if s.len() == 0 {
        seq![]
    } else if is_ascii_alnum(s.last()) {
        normalized(s.drop_last()).push(ascii_lower(s.last()))
    } else {
        normalized(s.drop_last())
    }
}

/// Normalize an instrument symbol into the form used in topic names:
/// lowercase, non-alphanumeric characters stripped (e.g. `BTC-USDT` -> `btcusdt`).
pub fn normalize_instrument(instrument: &str) -> (out: String)
    ensures
        out@ == normalized(instrument@),
        out@ == instrument@.filter(
            |c: char| ('0' <= c && c <= '9') || ('a' <= c && c <= 'z') || ('A' <= c && c <= 'Z'),
        ).map_values(
            |c: char|
                if 'A' <= c && c <= 'Z' {
                    ((c as u32) + 32) as char
                } else {
                    c
                },
        ),
{
    let mut out = String::new();
    for c in it: instrument.chars()
        invariant
            it.seq() == instrument@,
            out@ == normalized(it.seq().take(it.index() as int)),
    {
        let ghost done = it.seq().take(it.index() as int);
        assert(it.seq().take(it.index() + 1).drop_last() == done);
        if char_is_ascii_alnum(c) {
            push_char(&mut out, char_to_ascii_lower(c));
        }
    }
    assert(instrument@.take(instrument@.len() as int) == instrument@);
    proof {
        lemma_normalized_is_filter_map(instrument@);
    }
    out
}


/// The separator between the two segments of a topic.
pub open spec fn topic_separator() -> Seq<char> {
    seq!['_', '_']
}

/// The topic of an item of `kind` on `instrument`: `{kind}__{normalized instrument}`.
pub open spec fn topic_of(instrument: Seq<char>, kind: ItemKind) -> Seq<char> {
    kind_segment(kind) + topic_separator() + normalized(instrument)
}

/// The topic of an item of `kind` for a configured instrument: the suffix is
/// used verbatim when one is set, the normalized instrument otherwise.
pub open spec fn source_topic_of(instrument: Seq<char>, kind: ItemKind, suffix: Option<Seq<char>>) -> Seq<char> {
    match suffix {
        Some(s) => kind_segment(kind) + topic_separator() + s,
        None => topic_of(instrument, kind),
    }
}

/// `{kind}__` followed by `segment`.
fn topic_with_segment(kind: ItemKind, segment: &str) -> (t: String)
    ensures
        t@ == kind_segment(kind) + topic_separator() + segment@,
{
    let mut t = String::from_str(kind.as_str());
    proof {
        reveal_strlit("__");
    }
    t.append("__");
    t.append(segment);
    t
}

/// Build the dynamic topic for an item: `{kind}__{instrument}` (e.g. `lob__btcusdt`).
///
/// The topic does **not** include the exchange. When several exchanges are run
/// in parallel against the same instrument and kind the topics collide (last
/// writer wins); operators must use distinct instruments per exchange to keep
/// streams separate.
pub fn topic_for(instrument: &str, kind: ItemKind) -> (t: String)
    ensures
        t@ == topic_of(instrument@, kind),
{
    let normalized_instrument = normalize_instrument(instrument);
    topic_with_segment(kind, normalized_instrument.as_str())
}

/// The topic for an item read from a configured instrument: `suffix_topic`,
/// when set, replaces the normalized instrument verbatim.
pub fn source_topic(instrument: &str, kind: ItemKind, suffix: Option<&str>) -> (t: String)
    ensures
        t@ == source_topic_of(instrument@, kind, match suffix {
            Some(s) => Some(s@),
            None => None,
        }),
        suffix matches Some(s) ==> t@ == kind_segment(kind) + seq!['_', '_'] + s@,
{
    match suffix {
        Some(s) => topic_with_segment(kind, s),
        None => topic_for(instrument, kind),
    }
}

/// The byte that separates the topic from the payload on the wire.
pub const FRAME_SEPARATOR: u8 = 0u8;

/// The wire bytes of a message: the UTF-8 topic, the separator, the payload.
pub open spec fn framed(topic: Seq<char>, payload: Seq<u8>) -> Seq<u8> {
    encode_utf8(topic) + seq![FRAME_SEPARATOR] + payload
}

/// Frame a topic and payload into the wire bytes sent over NNG:
/// `topic\0payload`. The topic stays a prefix so NNG SUB topic filtering
/// works while the payload can be split back out by the subscriber.
pub fn frame_message(topic: &str, payload: &[u8]) -> (bytes: Vec<u8>)
    ensures
        bytes@ == framed(topic@, payload@),
{
    let mut bytes: Vec<u8> = Vec::new();
    bytes.extend_from_slice(topic.as_bytes());
    bytes.push(FRAME_SEPARATOR);
    bytes.extend_from_slice(payload);
    bytes
}

/// `i` is the position of the first separator byte in `bytes`.
pub open spec fn is_first_separator(bytes: Seq<u8>, i: int) -> bool {
    &&& 0 <= i < bytes.len()
    &&& bytes[i] == FRAME_SEPARATOR
    &&& forall|j: int| 0 <= j < i ==> bytes[j] != FRAME_SEPARATOR
}

/// Name for the text that `String::from_utf8_lossy` makes of a byte sequence.
pub uninterp spec fn utf8_lossy(bytes: Seq<u8>) -> Seq<char>;

/// `String::from_utf8_lossy` from std, made an owned `String`. The result is
/// named `utf8_lossy`; as std documents, bytes that are valid UTF-8 come back
/// as exactly the text they encode. What it makes of invalid bytes (U+FFFD
/// replacements) is left to the name.
#[verifier::external_body]
fn decode_utf8_lossy(bytes: &[u8]) -> (s: String)
    ensures
        s@ == utf8_lossy(bytes@),
        valid_utf8(bytes@) ==> s@ == decode_utf8(bytes@),
{
    String::from_utf8_lossy(bytes).into_owned()
}

/// The text of bytes read off the wire: the decoded characters when the
/// bytes are valid UTF-8, the lossy decoding otherwise.
pub open spec fn wire_text(bytes: Seq<u8>) -> Seq<char> {
    if valid_utf8(bytes) {
        decode_utf8(bytes)
    } else {
        utf8_lossy(bytes)
    }
}

/// What `split_frame` makes of `bytes`: the text before the first separator
/// and the bytes after it, or nothing when there is no separator.
pub open spec fn split_of(bytes: Seq<u8>) -> Option<(Seq<char>, Seq<u8>)> {
    if exists|i: int| is_first_separator(bytes, i) {
        let i = choose|i: int| is_first_separator(bytes, i);
        Some((wire_text(bytes.take(i)), bytes.skip(i + 1)))
    } else {
        None
    }
}

proof fn lemma_first_separator_unique(bytes: Seq<u8>, i: int, k: int)
    requires
        is_first_separator(bytes, i),
        is_first_separator(bytes, k),
    ensures
        i == k,
{
    if i < k {
        assert(bytes[i] != FRAME_SEPARATOR);
    } else if k < i {
        assert(bytes[k] != FRAME_SEPARATOR);
    }
}

/// Split a framed wire message back into `(topic, payload)`. Returns `None`
/// when the frame separator is missing. The topic is what
/// `String::from_utf8_lossy` makes of the bytes before the first separator.
pub fn split_frame(bytes: &[u8]) -> (res: Option<(String, &[u8])>)
    ensures
        match res {
            Some((topic, payload)) => {
                &&& split_of(bytes@) == Some((topic@, payload@))
                &&& topic@ == utf8_lossy(
                    bytes@.take(choose|i: int| is_first_separator(bytes@, i)),
                )
            },
            None => split_of(bytes@) is None,
        },
{
    let mut i: usize = 0;
    while i < bytes.len()
        invariant
            i <= bytes@.len(),
            forall|j: int| 0 <= j < i ==> bytes@[j] != FRAME_SEPARATOR,
        decreases bytes@.len() - i,
    {
        if bytes[i] == FRAME_SEPARATOR {
            let topic = decode_utf8_lossy(slice_subrange(bytes, 0, i));
            let payload = slice_subrange(bytes, i + 1, bytes.len());
            proof {
                assert(is_first_separator(bytes@, i as int));
                let k = choose|k: int| is_first_separator(bytes@, k);
                lemma_first_separator_unique(bytes@, i as int, k);
                assert(bytes@.subrange(0, i as int) == bytes@.take(i as int));
                assert(bytes@.subrange(i + 1, bytes@.len() as int) == bytes@.skip(i + 1));
            }
            return Some((topic, payload));
        }
        i = i + 1;
    }
    None
}


proof fn lemma_encode_scalar_has_no_separator(c: char)
    requires
        c != '\0',
    ensures
        forall|k: int|
            0 <= k < encode_scalar(c as u32).len() ==> #[trigger] encode_scalar(c as u32)[k]
                != FRAME_SEPARATOR,
{
    let v: u32 = c as u32;
    assert(v != 0);
    if has_width_1_encoding(v) {
        assert(((v & 0x7F) as u8) != 0u8) by (bit_vector)
            requires
                0 < v <= 0x7F,
        ;
    } else {
        assert(forall|x: u8| #[trigger] (0xC0u8 | x) != 0u8) by (bit_vector);
        assert(forall|x: u8| #[trigger] (0xE0u8 | x) != 0u8) by (bit_vector);
        assert(forall|x: u8| #[trigger] (0xF0u8 | x) != 0u8) by (bit_vector);
        assert(forall|x: u8| #[trigger] (0x80u8 | x) != 0u8) by (bit_vector);
    }
}

proof fn lemma_encode_has_no_separator(chars: Seq<char>)
    requires
        !chars.contains('\0'),
    ensures
        forall|k: int|
            0 <= k < encode_utf8(chars).len() ==> #[trigger] encode_utf8(chars)[k] != FRAME_SEPARATOR,
    decreases chars.len(),
{
    if chars.len() > 0 {
        let head = encode_scalar(chars[0] as u32);
        let rest = chars.drop_first();
        assert(!rest.contains('\0')) by {
            if rest.contains('\0') {
                let j = choose|j: int| 0 <= j < rest.len() && rest[j] == '\0';
                assert(chars[j + 1] == '\0');
            }
        }
        lemma_encode_scalar_has_no_separator(chars[0]);
        lemma_encode_has_no_separator(rest);
        assert(encode_utf8(chars) == head + encode_utf8(rest));
    }
}

/// The wire bytes of a message start with the UTF-8 bytes of its topic, so
/// that NNG's prefix-based SUB filtering selects messages by topic.
pub proof fn lemma_frame_starts_with_topic(topic: Seq<char>, payload: Seq<u8>)
    ensures
        framed(topic, payload).take(encode_utf8(topic).len() as int) == encode_utf8(topic),
        framed(topic, payload)[encode_utf8(topic).len() as int] == FRAME_SEPARATOR,
{
    assert(framed(topic, payload).take(encode_utf8(topic).len() as int) == encode_utf8(topic));
}

/// Splitting a framed message gives back its topic and payload, for every
/// topic without a NUL character (a NUL in the topic would end the topic early).
pub proof fn lemma_split_frame_inverts_frame_message(topic: Seq<char>, payload: Seq<u8>)
    requires
        !topic.contains('\0'),
    ensures
        split_of(framed(topic, payload)) == Some((topic, payload)),
{
    let bytes = framed(topic, payload);
    let enc = encode_utf8(topic);
    let i = enc.len() as int;
    lemma_encode_has_no_separator(topic);
    assert(bytes[i] == FRAME_SEPARATOR);
    assert(is_first_separator(bytes, i));
    let k = choose|k: int| is_first_separator(bytes, k);
    lemma_first_separator_unique(bytes, i, k);
    assert(bytes.take(i) == enc);
    assert(bytes.skip(i + 1) == payload);
    encode_utf8_valid_utf8(topic);
    encode_utf8_decode_utf8(topic);
}


/// A character that can stand in a normalized instrument: an ASCII digit or a
/// lower-case ASCII letter.
pub open spec fn is_topic_char(c: char) -> bool {
    ('0' <= c && c <= '9') || ('a' <= c && c <= 'z')
}

/// A normalized instrument holds only ASCII digits and lower-case letters, and
/// normalizing it again changes nothing.
pub proof fn lemma_normalize_idempotent(s: Seq<char>)
    ensures
        forall|i: int| 0 <= i < normalized(s).len() ==> is_topic_char(#[trigger] normalized(s)[i]),
        normalized(normalized(s)) == normalized(s),
    decreases s.len(),
{
    if s.len() > 0 {
        let prev = normalized(s.drop_last());
        lemma_normalize_idempotent(s.drop_last());
        if is_ascii_alnum(s.last()) {
            let c = ascii_lower(s.last());
            let out = prev.push(c);
            assert(is_topic_char(c));
            assert(out.drop_last() == prev);
            assert(out.last() == c);
            assert(forall|i: int| 0 <= i < out.len() ==> is_topic_char(#[trigger] out[i])) by {
                assert forall|i: int| 0 <= i < out.len() implies is_topic_char(#[trigger] out[i]) by {
                    if i < prev.len() {
                        assert(out[i] == prev[i]);
                    }
                }
            }
        }
    }
}


/// Name for the JSON string literal (quotes and escapes included) that
/// `serde_json::to_string` writes for a piece of text.
pub uninterp spec fn json_quoted(text: Seq<char>) -> Seq<char>;

/// Name for whether `serde_json` reads the bytes as one complete JSON document.
pub uninterp spec fn is_json_document(bytes: Seq<u8>) -> bool;

/// `serde_json::to_string` on a `str`: the JSON string literal for the text,
/// named `json_quoted`. Serializing a `str` cannot fail in serde_json, so the
/// error arm, kept for the type, is never taken.
#[verifier::external_body]
fn quote_json(text: &str) -> (quoted: String)
    ensures
        quoted@ == json_quoted(text@),
{
    match serde_json::to_string(text) {
        Ok(quoted) => quoted,
        Err(_) => String::new(),
    }
}

/// `serde_json::from_slice::<serde_json::Value>`: whether the bytes parse as a
/// JSON document; the answer is named `is_json_document`.
#[verifier::external_body]
fn parses_as_json(bytes: &[u8]) -> (ok: bool)
    ensures
        ok == is_json_document(bytes@),
{
    serde_json::from_slice::<serde_json::Value>(bytes).is_ok()
}

/// Why a received frame cannot be logged.
#[derive(Debug, Clone, Copy, PartialEq, Eq, Structural)]
pub enum FrameError {
    /// The frame holds no separator between topic and payload.
    MissingSeparator,
    /// The payload is not a JSON document.
    InvalidPayload,
}

impl FrameError {
    /// A description of the error for log lines.
    pub fn message(&self) -> (m: &'static str)
        ensures
            m@ == frame_error_text(*self),
    {
        match self {
            FrameError::MissingSeparator => "frame separator missing",
            FrameError::InvalidPayload => "payload is not valid JSON",
        }
    }
}

/// The description of a frame error.
pub open spec fn frame_error_text(e: FrameError) -> Seq<char> {
    match e {
        FrameError::MissingSeparator => "frame separator missing"@,
        FrameError::InvalidPayload => "payload is not valid JSON"@,
    }
}

/// The structured log line for a message: `{"topic":<topic>,"payload":<payload>}`,
/// the topic as a JSON string and the payload text as it was received.
pub open spec fn log_entry_of(topic: Seq<char>, payload: Seq<u8>) -> Seq<char> {
    "{\"topic\":"@ + json_quoted(topic) + ",\"payload\":"@ + wire_text(payload) + "}"@
}

/// What `build_log_entry` gives for received bytes.
pub open spec fn log_entry_result(bytes: Seq<u8>) -> Result<Seq<char>, FrameError> {
    match split_of(bytes) {
        None => Err(FrameError::MissingSeparator),
        Some((topic, payload)) => if is_json_document(payload) {
            Ok(log_entry_of(topic, payload))
        } else {
            Err(FrameError::InvalidPayload)
        },
    }
}

/// Build the structured JSON log line for a received frame:
/// `{"topic":"...","payload":{...}}`, with the payload kept byte for byte.
pub fn build_log_entry(bytes: &[u8]) -> (res: Result<String, FrameError>)
    ensures
        match res {
            Ok(entry) => log_entry_result(bytes@) == Ok::<Seq<char>, FrameError>(entry@),
            Err(e) => log_entry_result(bytes@) == Err::<Seq<char>, FrameError>(e),
        },
{
    match split_frame(bytes) {
        None => Err(FrameError::MissingSeparator),
        Some((topic, payload)) => {
            if !parses_as_json(payload) {
                return Err(FrameError::InvalidPayload);
            }
            let mut entry = String::from_str("{\"topic\":");
            let quoted = quote_json(topic.as_str());
            entry.append(quoted.as_str());
            entry.append(",\"payload\":");
            let text = decode_utf8_lossy(payload);
            entry.append(text.as_str());
            entry.append("}");
            Ok(entry)
        },
    }
}

/// A framed message whose payload is a JSON document is logged under its own
/// topic with its payload text, for every topic without a NUL character.
pub proof fn lemma_log_entry_of_framed(topic: Seq<char>, payload: Seq<u8>)
    requires
        !topic.contains('\0'),
        is_json_document(payload),
    ensures
        log_entry_result(framed(topic, payload)) == Ok::<Seq<char>, FrameError>(
            log_entry_of(topic, payload),
        ),
{
    lemma_split_frame_inverts_frame_message(topic, payload);
}

proof fn lemma_normalized_filter_map_with(
    s: Seq<char>,
    keep: spec_fn(char) -> bool,
    lower: spec_fn(char) -> char,
)
    requires
        forall|c: char|
            #[trigger] keep(c) == (('0' <= c && c <= '9') || ('a' <= c && c <= 'z') || ('A' <= c
                && c <= 'Z')),
        forall|c: char|
            #[trigger] lower(c) == if 'A' <= c && c <= 'Z' {
                ((c as u32) + 32) as char
            } else {
                c
            },
    ensures
        normalized(s) == s.filter(keep).map_values(lower),
    decreases s.len(),
{
    reveal(Seq::filter);
    if s.len() > 0 {
        lemma_normalized_filter_map_with(s.drop_last(), keep, lower);
        let sub = s.drop_last().filter(keep);
        if keep(s.last()) {
            assert(sub.push(s.last()).map_values(lower) == sub.map_values(lower).push(
                lower(s.last()),
            ));
        }
    } else {
        assert(s.filter(keep).map_values(lower) =~= Seq::<char>::empty());
    }
}

/// A normalized instrument is exactly the instrument's ASCII letters and
/// digits, in order, with upper-case letters made lower-case: nothing else is
/// dropped, added or changed.
pub proof fn lemma_normalized_is_filter_map(s: Seq<char>)
    ensures
        normalized(s) == s.filter(
            |c: char| ('0' <= c && c <= '9') || ('a' <= c && c <= 'z') || ('A' <= c && c <= 'Z'),
        ).map_values(
            |c: char|
                if 'A' <= c && c <= 'Z' {
                    ((c as u32) + 32) as char
                } else {
                    c
                },
        ),
{
    lemma_normalized_filter_map_with(
        s,
        |c: char| ('0' <= c && c <= '9') || ('a' <= c && c <= 'z') || ('A' <= c && c <= 'Z'),
        |c: char|
            if 'A' <= c && c <= 'Z' {
                ((c as u32) + 32) as char
            } else {
                c
            },
    );
}

/// With a suffix configured, the topic of an item of any kind is the kind's
/// segment, `__` and the suffix verbatim; without one, it is the kind's
/// segment, `__` and the normalized instrument.
pub proof fn lemma_source_topic_uses_suffix(
    instrument: Seq<char>,
    kind: ItemKind,
    suffix: Option<Seq<char>>,
)
    ensures
        suffix matches Some(s) ==> source_topic_of(instrument, kind, suffix) == (match kind {
            ItemKind::Lob => seq!['l', 'o', 'b'],
            ItemKind::Trade => seq!['t', 'r', 'a', 'd', 'e'],
        }) + seq!['_', '_'] + s,
        suffix is None ==> source_topic_of(instrument, kind, suffix) == (match kind {
            ItemKind::Lob => seq!['l', 'o', 'b'],
            ItemKind::Trade => seq!['t', 'r', 'a', 'd', 'e'],
        }) + seq!['_', '_'] + normalized(instrument),
{
}

} // verus!
