//! Speech recognition by a service over HTTP.
//!
//! The service is reached elsewhere. What is decided here: whether a configuration can
//! work at all, what a request holds, what is read out of an answer, and when a failed
//! request is tried again.

use crate::bytes::{le16, le32, push_bytes, push_le16, push_le32};
use crate::json::{find_member, member_of, parse_json, parsed_json, Json};
use crate::text::{
    chars_of, cut, decimal, decimal_text, has_prefix, joined, number_of, parse_number, piece,
    push_chars, same_chars, same_text, spelled, split_on, starts_with, text_of, trim, trimmed,
};
use vstd::prelude::*;

verus! {

/// Minimum audio length worth sending: a fifth of a second.
pub const MIN_SAMPLES: usize = 3200;

/// How the audio is put into the request body.
#[derive(Debug, Clone, Copy, PartialEq, Eq, Structural)]
pub enum ExternalSttMode {
    /// A form with a file part.
    Multipart,
    /// The bytes as the request body.
    Raw,
}

impl Default for ExternalSttMode {
    fn default() -> (mode: ExternalSttMode)
        ensures
            mode == ExternalSttMode::Multipart,
    {
        ExternalSttMode::Multipart
    }
}

/// Everything that is needed to reach the service.
#[derive(Debug, Clone)]
pub struct ExternalSttConfig {
    /// Full endpoint URL.
    pub url: String,
    pub mode: ExternalSttMode,
    /// Field name carrying the audio.
    pub file_field: String,
    /// Optional `model` field expected by the service.
    pub model: Option<String>,
    /// Field name carrying the language hint.
    pub language_field: String,
    pub send_language: bool,
    /// Dot path to the text inside a JSON answer, such as `text` or `result.0.text`.
    pub response_path: String,
    pub timeout_ms: u64,
    /// Retries after a failure that may pass.
    pub max_retries: u32,
    /// Optional bearer token.
    pub auth_token: Option<String>,
}

impl Default for ExternalSttConfig {
    fn default() -> (config: ExternalSttConfig)
        ensures
            config.url@.len() == 0,
            config.mode == ExternalSttMode::Multipart,
            config.file_field@ == "file"@,
            config.model is None,
            config.language_field@ == "language"@,
            config.send_language,
            config.response_path@ == "text"@,
            config.timeout_ms == 30_000,
            config.max_retries == 2,
            config.auth_token is None,
    {
        ExternalSttConfig {
            url: String::new(),
            mode: ExternalSttMode::Multipart,
            file_field: "file".to_owned(),
            model: None,
            language_field: "language".to_owned(),
            send_language: true,
            response_path: "text".to_owned(),
            timeout_ms: 30_000,
            max_retries: 2,
            auth_token: None,
        }
    }
}

/// A text without a prefix it starts with, however often.
pub open spec fn without_prefix(text: Seq<char>, prefix: Seq<char>) -> Seq<char>
    decreases text.len(),
{
    if prefix.len() > 0 && starts_with(text, prefix) {
        without_prefix(text.skip(prefix.len() as int), prefix)
    } else {
        text
    }
}

fn strip_prefixes(text: &Vec<char>, prefix: &Vec<char>) -> (rest: Vec<char>)
    requires
        prefix@.len() > 0,
    ensures
        rest@ == without_prefix(text@, prefix@),
{
    let mut rest = piece(text, 0, text.len());
    assert(rest@ =~= text@);
    while has_prefix(&rest, prefix)
        invariant
            prefix@.len() > 0,
            without_prefix(rest@, prefix@) == without_prefix(text@, prefix@),
        decreases rest@.len(),
    {
        let shorter = piece(&rest, prefix.len(), rest.len());
        assert(shorter@ =~= rest@.skip(prefix@.len() as int));
        rest = shorter;
    }
    rest
}

impl ExternalSttConfig {
    /// Reject configurations that cannot possibly work.
    pub fn validate(&self) -> (valid: Result<(), String>)
        ensures
            ({
                let url = trimmed(self.url@);
                let http = starts_with(url, "http://"@) || starts_with(url, "https://"@);
                match valid {
                    Ok(()) => url.len() > 0 && http && self.timeout_ms >= 1000,
                    Err(reason) => if url.len() == 0 {
                        reason@ == "Endpoint URL is not set"@
                    } else if !http {
                        reason@ == "Endpoint URL must start with http:// or https://"@
                    } else {
                        self.timeout_ms < 1000 && reason@ == "Timeout must be at least 1000 ms"@
                    },
                }
            }),
    {
        let url = trim(&chars_of(self.url.as_str()));
        if url.len() == 0 {
            return Err("Endpoint URL is not set".to_owned());
        }
        if !has_prefix(&url, &chars_of("http://")) && !has_prefix(&url, &chars_of("https://")) {
            return Err("Endpoint URL must start with http:// or https://".to_owned());
        }
        if self.timeout_ms < 1000 {
            return Err("Timeout must be at least 1000 ms".to_owned());
        }
        Ok(())
    }

    /// Host and port, shown as the "model" of this provider.
    pub fn display_name(&self) -> (name: String)
        ensures
            name@ == cut(
                without_prefix(without_prefix(trimmed(self.url@), "https://"@), "http://"@),
                '/',
                '/',
            )[0],
    {
        proof {
            reveal_strlit("https://");
            reveal_strlit("http://");
        }
        let url = trim(&chars_of(self.url.as_str()));
        let rest = strip_prefixes(&url, &chars_of("https://"));
        let rest = strip_prefixes(&rest, &chars_of("http://"));
        let pieces = split_on(&rest, '/', '/');
        assert(spelled(pieces@)[0] == pieces@[0]@);
        text_of(&pieces[0])
    }
}

/// The samples of a track, two bytes each.
pub open spec fn pcm_bytes(samples: Seq<i16>, upto: int) -> Seq<u8>
    decreases upto,
{
    if upto <= 0 {
        Seq::empty()
    } else {
        pcm_bytes(samples, upto - 1) + le16((samples[upto - 1] as int % 65536) as nat)
    }
}

/// The bytes before the samples of a WAV file: mono, sixteen bits. Lengths are counted in
/// 32 bits.
pub open spec fn wav_header(count: int, sample_rate: int) -> Seq<u8> {
    seq![82u8, 73u8, 70u8, 70u8] + le32(((36 + 2 * count) % 0x1_0000_0000) as nat) + seq![
        87u8,
        65u8,
        86u8,
        69u8,
        102u8,
        109u8,
        116u8,
        32u8,
    ] + le32(16) + le16(1) + le16(1) + le32(sample_rate as nat) + le32((2 * sample_rate) as nat)
        + le16(2) + le16(16) + seq![100u8, 97u8, 116u8, 97u8] + le32(
        ((2 * count) % 0x1_0000_0000) as nat,
    )
}

fn push_sample(bytes: &mut Vec<u8>, sample: i16)
    ensures
        final(bytes)@ == old(bytes)@ + le16((sample as int % 65536) as nat),
{
    let plain: u16 = if sample < 0 {
        (65536 + sample as i32) as u16
    } else {
        sample as u16
    };
    assert(plain == sample as int % 65536);
    push_le16(bytes, plain);
}

/// Encode samples as a WAV file in memory: mono, sixteen bits.
pub fn encode_wav_pcm16(samples: &Vec<i16>, sample_rate: u32) -> (wav: Vec<u8>)
    requires
        2 * samples@.len() + 44 <= usize::MAX,
        2 * sample_rate <= u32::MAX,
    ensures
        wav@ == wav_header(samples@.len() as int, sample_rate as int) + pcm_bytes(
            samples@,
            samples@.len() as int,
        ),
{
    let length: u64 = 2 * samples.len() as u64;
    let mut wav: Vec<u8> = Vec::new();
    push_bytes(&mut wav, vec![82u8, 73u8, 70u8, 70u8].as_slice());
    push_le32(&mut wav, ((36 + length) % 0x1_0000_0000) as u32);
    push_bytes(
        &mut wav,
        vec![87u8, 65u8, 86u8, 69u8, 102u8, 109u8, 116u8, 32u8].as_slice(),
    );
    push_le32(&mut wav, 16);
    push_le16(&mut wav, 1);
    push_le16(&mut wav, 1);
    push_le32(&mut wav, sample_rate);
    push_le32(&mut wav, sample_rate * 2);
    push_le16(&mut wav, 2);
    push_le16(&mut wav, 16);
    push_bytes(&mut wav, vec![100u8, 97u8, 116u8, 97u8].as_slice());
    push_le32(&mut wav, (length % 0x1_0000_0000) as u32);
    let ghost header = wav@;
    assert(header =~= wav_header(samples@.len() as int, sample_rate as int));
    let mut index: usize = 0;
    assert(header + pcm_bytes(samples@, 0) =~= header);
    while index < samples.len()
        invariant
            index <= samples@.len(),
            wav@ == header + pcm_bytes(samples@, index as int),
        decreases samples@.len() - index,
    {
        push_sample(&mut wav, samples[index]);
        index += 1;
        assert(wav@ =~= header + pcm_bytes(samples@, index as int));
    }
    wav
}

/// A WAV file is its header and two bytes for each sample.
pub proof fn wav_is_header_and_samples(samples: Seq<i16>, sample_rate: int)
    ensures
        wav_header(samples.len() as int, sample_rate).len() == 44,
        pcm_bytes(samples, samples.len() as int).len() == 2 * samples.len(),
{
    lemma_pcm_len(samples, samples.len() as int);
}

proof fn lemma_pcm_len(samples: Seq<i16>, upto: int)
    requires
        0 <= upto,
    ensures
        pcm_bytes(samples, upto).len() == 2 * upto,
    decreases upto,
{
    if upto > 0 {
        lemma_pcm_len(samples, upto - 1);
    }
}

/// One step along a dot path: a member of an object by its name, or an item of an array by
/// its number.
pub open spec fn step_into(value: Json, segment: Seq<char>) -> Option<Json> {
    match value {
        Json::Object(members, _) => member_of(members@, segment, 0),
        Json::Array(items) => match number_of(segment) {
            Some(index) => if index < items@.len() {
                Some(items@[index as int])
            } else {
                None
            },
            None => None,
        },
        _ => None,
    }
}

/// What a path leads to, after its first `upto` steps.
pub open spec fn stepped(value: Json, segments: Seq<Seq<char>>, upto: int) -> Option<Json>
    decreases upto,
{
    if upto <= 0 {
        Some(value)
    } else {
        match stepped(value, segments, upto - 1) {
            Some(inner) => step_into(inner, segments[upto - 1]),
            None => None,
        }
    }
}

/// What a dot path leads to. A blank one leads to the whole.
pub open spec fn at_path(value: Json, path: Seq<char>) -> Option<Json> {
    let inner = trimmed(path);
    if inner.len() == 0 {
        Some(value)
    } else {
        let segments = cut(inner, '.', '.');
        stepped(value, segments, segments.len() as int)
    }
}

fn step_to<'a>(value: &'a Json, segment: &Vec<char>) -> (found: Option<&'a Json>)
    ensures
        match found {
            Some(inner) => step_into(*value, segment@) == Some(*inner),
            None => step_into(*value, segment@) is None,
        },
{
    match value {
        Json::Object(members, _) => find_member(members, segment),
        Json::Array(items) => match parse_number(segment) {
            Some(index) => if index < items.len() as u64 {
                Some(&items[index as usize])
            } else {
                None
            },
            None => None,
        },
        _ => None,
    }
}

/// Follow a dot path through an answer.
pub fn value_at_path<'a>(value: &'a Json, path: &str) -> (found: Option<&'a Json>)
    ensures
        match found {
            Some(inner) => at_path(*value, path@) == Some(*inner),
            None => at_path(*value, path@) is None,
        },
{
    let inner = trim(&chars_of(path));
    if inner.len() == 0 {
        return Some(value);
    }
    let segments = split_on(&inner, '.', '.');
    let ghost spelt = spelled(segments@);
    let mut current: &'a Json = value;
    let mut index: usize = 0;
    while index < segments.len()
        invariant
            index <= segments@.len(),
            spelt == spelled(segments@),
            spelt == cut(inner@, '.', '.'),
            stepped(*value, spelt, index as int) == Some(*current),
            inner@ == trimmed(path@),
            inner@.len() > 0,
        decreases segments@.len() - index,
    {
        assert(spelt[index as int] == segments@[index as int]@);
        match step_to(current, &segments[index]) {
            Some(next) => {
                current = next;
            },
            None => {
                proof {
                    lemma_lost_stays_lost(*value, spelt, index + 1, spelt.len() as int);
                }
                return None;
            },
        }
        index += 1;
    }
    Some(current)
}

proof fn lemma_lost_stays_lost(value: Json, segments: Seq<Seq<char>>, lost: int, upto: int)
    requires
        0 <= lost <= upto,
        stepped(value, segments, lost) is None,
    ensures
        stepped(value, segments, upto) is None,
    decreases upto - lost,
{
    if lost < upto {
        lemma_lost_stays_lost(value, segments, lost, upto - 1);
    }
}

/// The texts among the first `upto` items, with blanks between them.
pub open spec fn joined_items(items: Seq<Json>, upto: int) -> Seq<char>
    decreases upto,
{
    if upto <= 0 {
        Seq::empty()
    } else {
        let before = joined_items(items, upto - 1);
        match items[upto - 1] {
            Json::Text(text) => if has_text(items, upto - 1) {
                before + " "@ + text@
            } else {
                before + text@
            },
            _ => before,
        }
    }
}

/// One of the first `upto` items is a text.
pub open spec fn has_text(items: Seq<Json>, upto: int) -> bool {
    exists|i: int| 0 <= i < upto && (#[trigger] items[i]) is Text
}

/// What a value says: a text as it is, nothing for nothing, an array by its texts, and
/// anything else as it is written.
pub open spec fn text_in(value: Json) -> Seq<char> {
    match value {
        Json::Text(text) => text@,
        Json::Null => Seq::empty(),
        Json::Array(items) => joined_items(items@, items@.len() as int),
        Json::Bool(flag) => if flag {
            "true"@
        } else {
            "false"@
        },
        Json::Number(written) => written@,
        Json::Object(_, written) => written@,
    }
}

fn join_texts(items: &Vec<Json>) -> (text: String)
    ensures
        text@ == joined_items(items@, items@.len() as int),
{
    let mut text = String::new();
    let mut any = false;
    let mut index: usize = 0;
    assert(text@ =~= joined_items(items@, 0));
    while index < items.len()
        invariant
            index <= items@.len(),
            text@ == joined_items(items@, index as int),
            any == has_text(items@, index as int),
        decreases items@.len() - index,
    {
        match &items[index] {
            Json::Text(item) => {
                if any {
                    text.append(" ");
                }
                text.append(item.as_str());
                assert(items@[index as int] is Text);
                any = true;
            },
            _ => {},
        }
        index += 1;
    }
    text
}

/// What a value says.
pub fn text_of_value(value: &Json) -> (text: String)
    ensures
        text@ == text_in(*value),
{
    match value {
        Json::Text(text) => text.clone(),
        Json::Null => String::new(),
        Json::Array(items) => join_texts(items),
        Json::Bool(flag) => if *flag {
            "true".to_owned()
        } else {
            "false".to_owned()
        },
        Json::Number(written) => written.clone(),
        Json::Object(_, written) => written.clone(),
    }
}

/// A text with every line break as a blank.
pub open spec fn on_one_line(text: Seq<char>) -> Seq<char> {
    text.map_values(
        |c: char|
            if c == '\n' || c == '\r' {
                ' '
            } else {
                c
            },
    )
}

/// A text short enough for a message.
pub open spec fn shortened(text: Seq<char>) -> Seq<char> {
    let line = on_one_line(text);
    if line.len() > 200 {
        line.take(200) + "..."@
    } else {
        line
    }
}

/// Shorten a body for error messages.
pub fn snippet(body: &str) -> (short: String)
    ensures
        short@ == shortened(body@),
{
    let chars = chars_of(body);
    let mut line: Vec<char> = Vec::new();
    let mut index: usize = 0;
    while index < chars.len()
        invariant
            index <= chars@.len(),
            line@ =~= on_one_line(chars@.take(index as int)),
        decreases chars@.len() - index,
    {
        let c = chars[index];
        if c == '\n' || c == '\r' {
            line.push(' ');
        } else {
            line.push(c);
        }
        index += 1;
    }
    assert(chars@.take(chars@.len() as int) =~= chars@);
    if line.len() > 200 {
        let mut short = piece(&line, 0, 200);
        assert(short@ =~= line@.take(200));
        push_chars(&mut short, &chars_of("..."));
        text_of(&short)
    } else {
        text_of(&line)
    }
}

/// What is read out of an answer that was parsed: the text at the configured path. A body
/// that is not JSON is the text itself. `body` has no white space around it.
pub open spec fn answer_text(body: Seq<char>, parsed: Option<Json>, path: Seq<char>) -> Result<
    Seq<char>,
    Seq<char>,
> {
    match parsed {
        None => Ok(body),
        Some(value) => match at_path(value, path) {
            Some(found) => Ok(text_in(found)),
            None => Err(
                "Response has no field '"@ + path + "' (got: "@ + shortened(body) + ")"@,
            ),
        },
    }
}

/// The text and the error of a reading.
pub open spec fn said(result: Result<String, String>) -> Result<Seq<char>, Seq<char>> {
    match result {
        Ok(text) => Ok(text@),
        Err(reason) => Err(reason@),
    }
}

/// Reads the text out of an answer that was parsed.
pub fn read_answer(body: &str, parsed: &Option<Json>, response_path: &str) -> (text: Result<
    String,
    String,
>)
    ensures
        said(text) == answer_text(body@, *parsed, response_path@),
{
    match parsed {
        None => Ok(body.to_owned()),
        Some(value) => match value_at_path(value, response_path) {
            Some(found) => Ok(text_of_value(found)),
            None => {
                let mut reason = joined("Response has no field '", response_path);
                reason.append("' (got: ");
                let got = snippet(body);
                reason.append(got.as_str());
                reason.append(")");
                Err(reason)
            },
        },
    }
}

/// Extract the transcript out of whatever the service answered.
pub fn extract_text(body: &str, response_path: &str) -> (text: Result<String, String>)
    ensures
        ({
            let inner = trimmed(body@);
            said(text) == if inner.len() == 0 {
                Ok::<Seq<char>, Seq<char>>(Seq::empty())
            } else {
                answer_text(inner, parsed_json(inner), response_path@)
            }
        }),
{
    let inner = trim(&chars_of(body));
    if inner.len() == 0 {
        let nothing = String::new();
        assert(nothing@ =~= Seq::<char>::empty());
        return Ok(nothing);
    }
    let plain = text_of(&inner);
    let parsed = parse_json(plain.as_str());
    read_answer(plain.as_str(), &parsed, response_path)
}

/// What a request holds besides the audio.
#[derive(Debug)]
pub struct RequestParts {
    pub url: String,
    pub bearer: Option<String>,
    pub form: Option<FormParts>,
}

/// The fields of a form.
#[derive(Debug)]
pub struct FormParts {
    pub file_field: String,
    pub model: Option<String>,
    pub language: Option<(String, String)>,
}

/// A text without the white space around it, if anything is left.
pub open spec fn filled(text: Option<String>) -> Option<Seq<char>> {
    match text {
        Some(given) => if trimmed(given@).len() > 0 {
            Some(trimmed(given@))
        } else {
            None
        },
        None => None,
    }
}

fn fill(text: &Option<String>) -> (inner: Option<String>)
    ensures
        match inner {
            Some(given) => filled(*text) == Some(given@),
            None => filled(*text) is None,
        },
{
    match text {
        Some(given) => {
            let inner = trim(&chars_of(given.as_str()));
            if inner.len() > 0 {
                Some(text_of(&inner))
            } else {
                None
            }
        },
        None => None,
    }
}

/// The language that is really sent on: none for a blank one, and none for the two words
/// that stand for letting the engine decide.
pub open spec fn language_to_send(language: Option<String>) -> Option<Seq<char>> {
    match filled(language) {
        Some(code) => if code == "auto"@ || code == "auto-translate"@ {
            None
        } else {
            Some(code)
        },
        None => None,
    }
}

pub fn sent_language(language: &Option<String>) -> (code: Option<String>)
    ensures
        match code {
            Some(text) => language_to_send(*language) == Some(text@),
            None => language_to_send(*language) is None,
        },
{
    match fill(language) {
        Some(code) => if same_text(code.as_str(), "auto") || same_text(
            code.as_str(),
            "auto-translate",
        ) {
            None
        } else {
            Some(code)
        },
        None => None,
    }
}

/// What a request holds. `language` is the one to send on.
pub fn request_parts(config: &ExternalSttConfig, language: Option<String>) -> (parts: RequestParts)
    ensures
        parts.url@ == trimmed(config.url@),
        match parts.bearer {
            Some(token) => filled(config.auth_token) == Some(token@),
            None => filled(config.auth_token) is None,
        },
        match parts.form {
            Some(form) => {
                &&& config.mode is Multipart
                &&& form.file_field@ == config.file_field@
                &&& match form.model {
                    Some(model) => filled(config.model) == Some(model@),
                    None => filled(config.model) is None,
                }
                &&& match form.language {
                    Some((field, code)) => {
                        &&& config.send_language
                        &&& field@ == config.language_field@
                        &&& language == Some(code)
                        &&& code@.len() > 0
                    },
                    None => !config.send_language || language is None || language->0@.len() == 0,
                }
            },
            None => config.mode is Raw,
        },
{
    let url = text_of(&trim(&chars_of(config.url.as_str())));
    let bearer = fill(&config.auth_token);
    let form = match config.mode {
        ExternalSttMode::Raw => None,
        ExternalSttMode::Multipart => {
            let hint = match language {
                Some(code) => if config.send_language && !code.as_str().is_empty() {
                    Some((config.language_field.clone(), code))
                } else {
                    None
                },
                None => None,
            };
            Some(
                FormParts {
                    file_field: config.file_field.clone(),
                    model: fill(&config.model),
                    language: hint,
                },
            )
        },
    };
    RequestParts { url, bearer, form }
}

/// What an answer with this status comes to: its text, or an error and whether it is worth
/// another attempt. Only a failure of the service itself is.
pub fn read_response(status: u16, body: &str, response_path: &str) -> (text: Result<
    String,
    (String, bool),
>)
    ensures
        ({
            let inner = trimmed(body@);
            let read = if inner.len() == 0 {
                Ok::<Seq<char>, Seq<char>>(Seq::empty())
            } else {
                answer_text(inner, parsed_json(inner), response_path@)
            };
            match text {
                Ok(said) => 200 <= status < 300 && read == Ok::<Seq<char>, Seq<char>>(said@),
                Err((reason, retry)) => if 200 <= status < 300 {
                    !retry && read == Err::<Seq<char>, Seq<char>>(reason@)
                } else {
                    &&& retry == (500 <= status < 600)
                    &&& reason@ == "Service answered "@ + decimal(status as nat) + ": "@
                        + shortened(body@)
                },
            }
        }),
{
    if !(200 <= status && status < 300) {
        let number = text_of(&decimal_text(status as u64));
        let mut reason = joined("Service answered ", number.as_str());
        reason.append(": ");
        let got = snippet(body);
        reason.append(got.as_str());
        return Err((reason, 500 <= status && status < 600));
    }
    match extract_text(body, response_path) {
        Ok(text) => Ok(text),
        Err(reason) => Err((reason, false)),
    }
}

/// How a request failed before there was an answer.
#[derive(Clone, Copy, Debug, PartialEq, Eq, Structural)]
pub struct RequestFailure {
    pub timeout: bool,
    pub connect: bool,
    pub request: bool,
}

/// Network hiccups and timeouts are worth another attempt; bad requests are not.
pub fn is_retryable(failure: &RequestFailure) -> (retry: bool)
    ensures
        retry == (failure.timeout || failure.connect || failure.request),
{
    failure.timeout || failure.connect || failure.request
}

/// What is said of a request that failed; `detail` is what the network said.
pub fn describe_request_error(failure: &RequestFailure, detail: &str) -> (message: String)
    ensures
        message@ == if failure.timeout {
            "The speech service did not answer in time"@
        } else if failure.connect {
            "Cannot reach the speech service - is it running?"@
        } else {
            "Request to the speech service failed: "@ + detail@
        },
{
    if failure.timeout {
        "The speech service did not answer in time".to_owned()
    } else if failure.connect {
        "Cannot reach the speech service - is it running?".to_owned()
    } else {
        joined("Request to the speech service failed: ", detail)
    }
}

/// The wait before the first retry, in milliseconds.
pub const FIRST_BACKOFF_MS: u64 = 400;

/// Trying again after failures that may pass.
#[derive(Clone, Copy, Debug, PartialEq, Eq, Structural)]
pub struct RetryState {
    pub attempt: u32,
    pub backoff_ms: u64,
}

/// The wait before retry `attempt`: three times as long each time, and no longer than can
/// be said.
pub open spec fn backoff_before(attempt: int) -> int
    decreases attempt,
{
    if attempt <= 1 {
        FIRST_BACKOFF_MS as int
    } else {
        let longer = 3 * backoff_before(attempt - 1);
        if longer > u64::MAX {
            u64::MAX as int
        } else {
            longer
        }
    }
}

impl RetryState {
    pub open spec fn valid(self) -> bool {
        self.backoff_ms == backoff_before(self.attempt + 1)
    }

    pub fn new() -> (state: RetryState)
        ensures
            state.attempt == 0,
            state.valid(),
    {
        RetryState { attempt: 0, backoff_ms: FIRST_BACKOFF_MS }
    }

    /// What a failure comes to: the wait before another attempt, in milliseconds, or the
    /// end. There are as many retries as the configuration allows, and none after a failure
    /// that will not pass.
    pub fn failed(&mut self, retryable: bool, max_retries: u32) -> (wait: Option<u64>)
        requires
            old(self).valid(),
        ensures
            final(self).valid(),
            old(self).attempt <= max_retries ==> final(self).attempt <= max_retries,
            match wait {
                Some(ms) => {
                    &&& retryable
                    &&& old(self).attempt < max_retries
                    &&& final(self).attempt == old(self).attempt + 1
                    &&& ms == backoff_before(final(self).attempt as int)
                },
                None => (!retryable || old(self).attempt >= max_retries) && *final(self) == *old(
                    self,
                ),
            },
    {
        if !retryable || self.attempt >= max_retries {
            return None;
        }
        self.attempt = self.attempt + 1;
        let wait: u64 = self.backoff_ms;
        self.backoff_ms = if self.backoff_ms > u64::MAX / 3 {
            u64::MAX
        } else {
            self.backoff_ms * 3
        };
        Some(wait)
    }
}

/// Whether there is enough audio to recognise: how much there is and how much it takes,
/// where there is not.
pub fn check_length(samples: usize) -> (enough: Result<(), (usize, usize)>)
    ensures
        match enough {
            Ok(()) => samples >= MIN_SAMPLES,
            Err((held, minimum)) => samples < MIN_SAMPLES && held == samples && minimum
                == MIN_SAMPLES,
        },
{
    if samples < MIN_SAMPLES {
        Err((samples, MIN_SAMPLES))
    } else {
        Ok(())
    }
}

/// The model that a provider is shown with: the configured one, unless it is blank, else
/// the service's address.
pub fn get_current_model(config: &ExternalSttConfig) -> (model: String)
    ensures
        model@ == if config.model matches Some(given) && trimmed(given@).len() > 0 {
            config.model->0@
        } else {
            cut(
                without_prefix(without_prefix(trimmed(config.url@), "https://"@), "http://"@),
                '/',
                '/',
            )[0]
        },
{
    match &config.model {
        Some(given) => {
            let inner = trim(&chars_of(given.as_str()));
            if inner.len() > 0 {
                given.clone()
            } else {
                config.display_name()
            }
        },
        None => config.display_name(),
    }
}

/// What a test of the connection found.
#[derive(Debug)]
pub struct ExternalSttTestResult {
    pub ok: bool,
    pub latency_ms: u64,
    /// Text the service returned for the probe.
    pub text: String,
}

/// What is reported of a service that answered.
pub fn connection_tested(text: &str, latency_ms: u64) -> (result: ExternalSttTestResult)
    ensures
        result.ok,
        result.latency_ms == latency_ms,
        result.text@ == trimmed(text@),
{
    ExternalSttTestResult { ok: true, latency_ms, text: text_of(&trim(&chars_of(text))) }
}

/// A WAV file says what it holds: two bytes for each sample and 36 more behind the length, one
/// channel of sixteen bits, as many frames a second as asked for and twice as many bytes.
pub proof fn wav_says_what_it_holds(count: int, sample_rate: int)
    requires
        0 <= count <= 0x7fff_0000,
        0 <= sample_rate <= 0x7fff_ffff,
    ensures
        ({
            let header = wav_header(count, sample_rate);
            &&& header.len() == 44
            &&& header.subrange(0, 4) == seq![82u8, 73u8, 70u8, 70u8]
            &&& crate::bytes::from_le32(header.subrange(4, 8)) == 36 + 2 * count
            &&& header.subrange(8, 16) == seq![87u8, 65u8, 86u8, 69u8, 102u8, 109u8, 116u8, 32u8]
            &&& crate::bytes::from_le32(header.subrange(16, 20)) == 16
            &&& header.subrange(20, 22) == seq![1u8, 0u8]
            &&& header.subrange(22, 24) == seq![1u8, 0u8]
            &&& crate::bytes::from_le32(header.subrange(24, 28)) == sample_rate
            &&& crate::bytes::from_le32(header.subrange(28, 32)) == 2 * sample_rate
            &&& header.subrange(32, 34) == seq![2u8, 0u8]
            &&& header.subrange(34, 36) == seq![16u8, 0u8]
            &&& header.subrange(36, 40) == seq![100u8, 97u8, 116u8, 97u8]
            &&& crate::bytes::from_le32(header.subrange(40, 44)) == 2 * count
        }),
{
    lemma_header_parts(count, sample_rate);
    lemma_header_numbers(wav_header(count, sample_rate), count, sample_rate);
}

proof fn lemma_header_numbers(header: Seq<u8>, count: int, sample_rate: int)
    requires
        0 <= count <= 0x7fff_0000,
        0 <= sample_rate <= 0x7fff_ffff,
        header.subrange(4, 8) == le32(((36 + 2 * count) % 0x1_0000_0000) as nat),
        header.subrange(16, 20) == le32(16),
        header.subrange(20, 22) == le16(1),
        header.subrange(22, 24) == le16(1),
        header.subrange(24, 28) == le32(sample_rate as nat),
        header.subrange(28, 32) == le32((2 * sample_rate) as nat),
        header.subrange(32, 34) == le16(2),
        header.subrange(34, 36) == le16(16),
        header.subrange(40, 44) == le32(((2 * count) % 0x1_0000_0000) as nat),
    ensures
        crate::bytes::from_le32(header.subrange(4, 8)) == 36 + 2 * count,
        crate::bytes::from_le32(header.subrange(16, 20)) == 16,
        header.subrange(20, 22) == seq![1u8, 0u8],
        header.subrange(22, 24) == seq![1u8, 0u8],
        crate::bytes::from_le32(header.subrange(24, 28)) == sample_rate,
        crate::bytes::from_le32(header.subrange(28, 32)) == 2 * sample_rate,
        header.subrange(32, 34) == seq![2u8, 0u8],
        header.subrange(34, 36) == seq![16u8, 0u8],
        crate::bytes::from_le32(header.subrange(40, 44)) == 2 * count,
{
    let whole = (36 + 2 * count) as u32;
    let held = (2 * count) as u32;
    crate::bytes::lemma_le32_reads_back(whole);
    crate::bytes::lemma_le32_reads_back(held);
    crate::bytes::lemma_le32_reads_back(sample_rate as u32);
    crate::bytes::lemma_le32_reads_back((2 * sample_rate) as u32);
    crate::bytes::lemma_le32_reads_back(16);
    assert((36 + 2 * count) % 0x1_0000_0000 == whole);
    assert((2 * count) % 0x1_0000_0000 == held);
    assert(le16(1) =~= seq![1u8, 0u8]);
    assert(le16(2) =~= seq![2u8, 0u8]);
    assert(le16(16) =~= seq![16u8, 0u8]);
}

proof fn lemma_header_parts(count: int, sample_rate: int)
    ensures
        ({
            let header = wav_header(count, sample_rate);
            &&& header.len() == 44
            &&& header.subrange(0, 4) == seq![82u8, 73u8, 70u8, 70u8]
            &&& header.subrange(4, 8) == le32(((36 + 2 * count) % 0x1_0000_0000) as nat)
            &&& header.subrange(8, 16) == seq![87u8, 65u8, 86u8, 69u8, 102u8, 109u8, 116u8, 32u8]
            &&& header.subrange(16, 20) == le32(16)
            &&& header.subrange(20, 22) == le16(1)
            &&& header.subrange(22, 24) == le16(1)
            &&& header.subrange(24, 28) == le32(sample_rate as nat)
            &&& header.subrange(28, 32) == le32((2 * sample_rate) as nat)
            &&& header.subrange(32, 34) == le16(2)
            &&& header.subrange(34, 36) == le16(16)
            &&& header.subrange(36, 40) == seq![100u8, 97u8, 116u8, 97u8]
            &&& header.subrange(40, 44) == le32(((2 * count) % 0x1_0000_0000) as nat)
        }),
{
    lemma_parts_of_header(
        seq![82u8, 73u8, 70u8, 70u8],
        le32(((36 + 2 * count) % 0x1_0000_0000) as nat),
        seq![87u8, 65u8, 86u8, 69u8, 102u8, 109u8, 116u8, 32u8],
        le32(16),
        le16(1),
        le16(1),
        le32(sample_rate as nat),
        le32((2 * sample_rate) as nat),
        le16(2),
        le16(16),
        seq![100u8, 97u8, 116u8, 97u8],
        le32(((2 * count) % 0x1_0000_0000) as nat),
    );
}

proof fn lemma_parts_of_header(
    a: Seq<u8>,
    b: Seq<u8>,
    c: Seq<u8>,
    d: Seq<u8>,
    e: Seq<u8>,
    f: Seq<u8>,
    g: Seq<u8>,
    h: Seq<u8>,
    i: Seq<u8>,
    j: Seq<u8>,
    k: Seq<u8>,
    l: Seq<u8>,
)
    requires
        a.len() == 4,
        b.len() == 4,
        c.len() == 8,
        d.len() == 4,
        e.len() == 2,
        f.len() == 2,
        g.len() == 4,
        h.len() == 4,
        i.len() == 2,
        j.len() == 2,
        k.len() == 4,
        l.len() == 4,
    ensures
        ({
            let whole = a + b + c + d + e + f + g + h + i + j + k + l;
            &&& whole.len() == 44
            &&& whole.subrange(0, 4) == a
            &&& whole.subrange(4, 8) == b
            &&& whole.subrange(8, 16) == c
            &&& whole.subrange(16, 20) == d
            &&& whole.subrange(20, 22) == e
            &&& whole.subrange(22, 24) == f
            &&& whole.subrange(24, 28) == g
            &&& whole.subrange(28, 32) == h
            &&& whole.subrange(32, 34) == i
            &&& whole.subrange(34, 36) == j
            &&& whole.subrange(36, 40) == k
            &&& whole.subrange(40, 44) == l
        }),
{
    let whole = a + b + c + d + e + f + g + h + i + j + k + l;
    assert(whole.subrange(0, 4) =~= a);
    assert(whole.subrange(4, 8) =~= b);
    assert(whole.subrange(8, 16) =~= c);
    assert(whole.subrange(16, 20) =~= d);
    assert(whole.subrange(20, 22) =~= e);
    assert(whole.subrange(22, 24) =~= f);
    assert(whole.subrange(24, 28) =~= g);
    assert(whole.subrange(28, 32) =~= h);
    assert(whole.subrange(32, 34) =~= i);
    assert(whole.subrange(34, 36) =~= j);
    assert(whole.subrange(36, 40) =~= k);
    assert(whole.subrange(40, 44) =~= l);
}

/// Every sample is written in its place, the smaller byte first: the two bytes make up the
/// sample, counted from zero up to 65535 where it is negative.
pub proof fn samples_are_written_in_order(samples: Seq<i16>, index: int, upto: int)
    requires
        0 <= index < upto <= samples.len(),
    ensures
        ({
            let bytes = pcm_bytes(samples, upto);
            let low = bytes[2 * index] as int;
            let high = bytes[2 * index + 1] as int;
            &&& bytes.len() == 2 * upto
            &&& samples[index] >= 0 ==> low + 256 * high == samples[index]
            &&& samples[index] < 0 ==> low + 256 * high == samples[index] + 65536
        }),
    decreases upto,
{
    lemma_pcm_len(samples, upto);
    lemma_pcm_len(samples, upto - 1);
    let before = pcm_bytes(samples, upto - 1);
    let last = (samples[upto - 1] as int % 65536) as nat;
    assert(pcm_bytes(samples, upto) == before + le16(last));
    if index < upto - 1 {
        samples_are_written_in_order(samples, index, upto - 1);
        assert(pcm_bytes(samples, upto)[2 * index] == before[2 * index]);
        assert(pcm_bytes(samples, upto)[2 * index + 1] == before[2 * index + 1]);
    } else {
        assert(pcm_bytes(samples, upto)[2 * index] == le16(last)[0]);
        assert(pcm_bytes(samples, upto)[2 * index + 1] == le16(last)[1]);
    }
}

/// A prefix is taken off as often as it stands there: none is left, and one more changes
/// nothing. A text that does not start with it is as it was.
pub proof fn prefixes_are_taken_off(text: Seq<char>, prefix: Seq<char>)
    requires
        prefix.len() > 0,
    ensures
        !starts_with(without_prefix(text, prefix), prefix),
        without_prefix(prefix + text, prefix) == without_prefix(text, prefix),
        !starts_with(text, prefix) ==> without_prefix(text, prefix) == text,
    decreases text.len(),
{
    let longer = prefix + text;
    assert(longer.take(prefix.len() as int) =~= prefix);
    assert(longer.skip(prefix.len() as int) =~= text);
    if starts_with(text, prefix) {
        prefixes_are_taken_off(text.skip(prefix.len() as int), prefix);
    }
}

/// Words that stand by themselves: something is there, and no white space is around it.
pub open spec fn is_bare(text: Seq<char>) -> bool {
    text.len() > 0 && trimmed(text) == text
}

/// A path is followed step by step: one without a dot leads to the member of that name or to
/// the item of that number, one with a dot to where its second half leads from where its first
/// half led, and a blank one to the whole.
pub proof fn path_is_followed_step_by_step(
    value: Json,
    left: Seq<char>,
    right: Seq<char>,
    members: Vec<(String, Json)>,
    written: String,
    items: Vec<Json>,
)
    requires
        is_bare(left),
        is_bare(right),
    ensures
        at_path(value, Seq::empty()) == Some(value),
        !left.contains('.') ==> {
            &&& at_path(Json::Object(members, written), left) == member_of(members@, left, 0)
            &&& at_path(Json::Array(items), left) == match number_of(left) {
                Some(index) => if index < items@.len() {
                    Some(items@[index as int])
                } else {
                    None
                },
                None => None,
            }
            &&& at_path(Json::Null, left) is None
        },
        at_path(value, left.push('.') + right) == match at_path(value, left) {
            Some(inner) => at_path(inner, right),
            None => None,
        },
{
    let whole = left.push('.') + right;
    crate::text::marks_part_a_text(left, '.', right, '.', '.');
    let nothing = Seq::<char>::empty();
    assert(trimmed(nothing) == nothing) by {
        reveal_with_fuel(crate::text::trimmed_start, 2);
        reveal_with_fuel(crate::text::trimmed_end, 2);
    }
    lemma_bare_ends(left);
    lemma_bare_ends(right);
    assert(whole[0] == left[0]);
    assert(whole.last() == right.last());
    assert(trimmed(whole) == whole);
    let first = cut(left, '.', '.');
    let second = cut(right, '.', '.');
    lemma_steps_follow(value, first, second, second.len() as int);
    if !left.contains('.') {
        assert(first =~= seq![left]);
        reveal_with_fuel(stepped, 2);
        assert(seq![left][0] == left);
    }
}

proof fn lemma_bare_ends(text: Seq<char>)
    requires
        is_bare(text),
    ensures
        !crate::text::is_white(text[0]),
        !crate::text::is_white(text.last()),
{
    crate::text::white_space_alone_is_taken_off(text);
    let (from, to) = choose|from: int, to: int| #[trigger]
        crate::text::stands_between(text, from, to) && trimmed(text) == text.subrange(from, to);
    assert(text.subrange(from, to).len() == to - from);
    assert(from == 0 && to == text.len());
}

proof fn lemma_steps_follow(
    value: Json,
    first: Seq<Seq<char>>,
    second: Seq<Seq<char>>,
    upto: int,
)
    requires
        0 <= upto <= second.len(),
    ensures
        stepped(value, first + second, first.len() + upto) == match stepped(
            value,
            first,
            first.len() as int,
        ) {
            Some(inner) => stepped(inner, second, upto),
            None => None,
        },
    decreases upto,
{
    if upto > 0 {
        lemma_steps_follow(value, first, second, upto - 1);
        assert((first + second)[first.len() + upto - 1] == second[upto - 1]);
    } else {
        lemma_same_steps(value, first, first + second, first.len() as int);
    }
}

proof fn lemma_same_steps(value: Json, segments: Seq<Seq<char>>, more: Seq<Seq<char>>, upto: int)
    requires
        0 <= upto <= segments.len() <= more.len(),
        forall|i: int| 0 <= i < segments.len() ==> segments[i] == #[trigger] more[i],
    ensures
        stepped(value, segments, upto) == stepped(value, more, upto),
    decreases upto,
{
    if upto > 0 {
        lemma_same_steps(value, segments, more, upto - 1);
        assert(segments[upto - 1] == more[upto - 1]);
    }
}

/// An array says its texts in their order with a blank between them, and leaves out what is no
/// text.
pub proof fn texts_are_said_in_order(items: Seq<Json>, upto: int)
    requires
        0 <= upto < items.len(),
    ensures
        !(items[upto] is Text) ==> joined_items(items, upto + 1) == joined_items(items, upto),
        items[upto] matches Json::Text(text) ==> {
            let earlier = exists|i: int| 0 <= i < upto && (#[trigger] items[i]) is Text;
            &&& earlier ==> joined_items(items, upto + 1) == joined_items(items, upto).push(' ')
                + text@
            &&& !earlier ==> joined_items(items, upto + 1) == text@
        },
        joined_items(items, 0).len() == 0,
{
    reveal_strlit(" ");
    let before = joined_items(items, upto);
    if let Json::Text(text) = items[upto] {
        if has_text(items, upto) {
            assert(before + " "@ =~= before.push(' '));
        } else {
            lemma_no_text(items, upto);
            assert(before + text@ =~= text@);
        }
    }
}

proof fn lemma_no_text(items: Seq<Json>, upto: int)
    requires
        0 <= upto <= items.len(),
        !has_text(items, upto),
    ensures
        joined_items(items, upto).len() == 0,
    decreases upto,
{
    if upto > 0 {
        assert(!(items[upto - 1] is Text));
        assert(!has_text(items, upto - 1)) by {
            if has_text(items, upto - 1) {
                let i = choose|i: int| 0 <= i < upto - 1 && (#[trigger] items[i]) is Text;
                assert(items[i] is Text);
            }
        }
        lemma_no_text(items, upto - 1);
    }
}

/// A text in a message is on one line: of up to 200 characters every one is there, and of more
/// the first 200 and three dots.
pub proof fn message_text_is_one_short_line(text: Seq<char>, index: int)
    requires
        0 <= index < text.len(),
    ensures
        text.len() <= 200 ==> shortened(text).len() == text.len(),
        text.len() > 200 ==> shortened(text).len() == 203 && shortened(text).skip(200) == "..."@,
        index < 200 ==> shortened(text)[index] != '\n' && shortened(text)[index] != '\r',
        index < 200 && text[index] != '\n' && text[index] != '\r' ==> shortened(text)[index]
            == text[index],
        index < 200 && (text[index] == '\n' || text[index] == '\r') ==> shortened(text)[index]
            == ' ',
{
    reveal_strlit("...");
    if text.len() > 200 {
        assert(shortened(text).skip(200) =~= "..."@);
    }
}

/// The first retry comes after four tenths of a second, and each wait is three times the one
/// before it, as long as that can be said.
pub proof fn waits_grow_threefold(attempt: int)
    requires
        attempt >= 1,
    ensures
        backoff_before(1) == 400,
        400 <= backoff_before(attempt) <= u64::MAX,
        3 * backoff_before(attempt) <= u64::MAX ==> backoff_before(attempt + 1) == 3
            * backoff_before(attempt),
        3 * backoff_before(attempt) > u64::MAX ==> backoff_before(attempt + 1) == u64::MAX,
    decreases attempt,
{
    if attempt > 1 {
        waits_grow_threefold(attempt - 1);
    }
}

/// A language is sent as it is written, without white space around it; none is sent where none
/// is given, where it is blank, and where the engine is to decide.
pub proof fn language_is_sent_as_given(language: Option<String>)
    ensures
        language_to_send(None) is None,
        language_to_send(language) is None <==> language is None || trimmed(language->0@).len() == 0
            || trimmed(language->0@) == "auto"@ || trimmed(language->0@) == "auto-translate"@,
        language_to_send(language) matches Some(code) ==> code == trimmed(language->0@),
{
}

/// An answer that is no JSON is the text itself. What the path leads to is said as it is; where
/// it leads nowhere the reading fails, whatever else the answer holds.
pub proof fn answer_is_read_at_the_path(body: Seq<char>, path: Seq<char>, value: Json, text: String)
    ensures
        answer_text(body, None, path) == Ok::<Seq<char>, Seq<char>>(body),
        at_path(value, path) == Some(Json::Text(text)) ==> answer_text(body, Some(value), path)
            == Ok::<Seq<char>, Seq<char>>(text@),
        at_path(value, path) == Some(Json::Number(text)) ==> answer_text(body, Some(value), path)
            == Ok::<Seq<char>, Seq<char>>(text@),
        at_path(value, path) == Some(Json::Null) ==> answer_text(body, Some(value), path)
            == Ok::<Seq<char>, Seq<char>>(Seq::empty()),
        answer_text(body, Some(value), path) is Err <==> at_path(value, path) is None,
{
}

} // verus!
