//! Parsing broker messages and extracting values from them.

use crate::coerce::{convert_type, is_nonfinite_float_text, spec_convert_type};
use crate::config::Base64DecodeConfig;
use crate::error::SinqttError;
use crate::expr::{evaluate_expression, expression_body, parse_expression, spec_converted_expression,
    spec_expression_body, spec_expression_paths};
use crate::exprscan::spec_jsonpath_to_variable;
use crate::json::{jv_of_pairs, jv_of_seq, JsonValue, Jv};
use crate::jsonpath::{extract_path, spec_extract, spec_parse_path};
use crate::numfmt::{hex_chars, spec_dec_digits, spec_hex_of, spec_i64_dec};
use crate::numfmt::{i64_dec_chars, u64_dec_chars};
use crate::strutil::{chars_to_string, contains_seq, find_from, string_to_chars};
use crate::topic::{spec_split_slash, split_segments};
use vstd::prelude::*;

verus! {

#[verifier::external_type_specification]
#[verifier::external_body]
pub struct ExSerdeValue(serde_json::Value);

#[verifier::external_type_specification]
#[verifier::external_body]
pub struct ExSerdeNumber(serde_json::Number);

/// What the JSON parser returns for a text: the modeled value, or
/// nothing when the text is not JSON. It is a function of the text
/// alone.
pub uninterp spec fn parsed_json(s: Seq<char>) -> Option<Jv>;

/// The number arm of [`from_serde`]: a signed or unsigned integer
/// carries over as itself, any other number as its display text.
#[verifier::external_body]
fn from_serde_number(n: serde_json::Number) -> JsonValue {
    if let Some(i) = n.as_i64() {
        JsonValue::Int(i)
    } else if let Some(u) = n.as_u64() {
        JsonValue::UInt(u)
    } else {
        match n.as_f64() {
            Some(f) => JsonValue::Float(format!("{}", f)),
            None => JsonValue::Null,
        }
    }
}

/// The conversion arm of [`parse_json`]: carries a parsed outside value
/// over into the library's own JSON value, variant by variant.
#[verifier::external_body]
fn from_serde(v: serde_json::Value) -> JsonValue {
    match v {
        serde_json::Value::Null => JsonValue::Null,
        serde_json::Value::Bool(b) => JsonValue::Bool(b),
        serde_json::Value::Number(n) => from_serde_number(n),
        serde_json::Value::String(s) => JsonValue::Str(s),
        serde_json::Value::Array(a) => JsonValue::Array(a.into_iter().map(from_serde).collect()),
        serde_json::Value::Object(o) => JsonValue::Object(
            o.into_iter().map(|(k, x)| (k, from_serde(x))).collect(),
        ),
    }
}

/// Relies on `serde_json::from_str`: whether a text parses and what it
/// parses to depend on the text alone. The entries of parsed objects
/// come out in the parser's map order, sorted by key.
#[verifier::external_body]
pub fn parse_json(s: &str) -> (r: Option<JsonValue>)
    ensures
        match r {
            Some(v) => parsed_json(s@) == Some(v@),
            None => parsed_json(s@) is None,
        },
{
    match serde_json::from_str::<serde_json::Value>(s) {
        Ok(v) => Some(from_serde(v)),
        Err(_) => None,
    }
}

/// What lossy UTF-8 decoding gives for a byte sequence. It is a
/// function of the bytes alone, and it is empty exactly for no bytes.
pub uninterp spec fn utf8_lossy_of(b: Seq<u8>) -> Seq<char>;

/// Relies on `String::from_utf8_lossy`: the decoded text depends on
/// the bytes alone, and one or more bytes decode to one or more
/// characters.
#[verifier::external_body]
pub fn utf8_lossy(b: &[u8]) -> (r: String)
    ensures
        r@ == utf8_lossy_of(b@),
        r@.len() == 0 <==> b@.len() == 0,
{
    String::from_utf8_lossy(b).to_string()
}

/// What standard base64 decoding gives for a text: the decoded bytes,
/// or nothing when the text is not valid base64. It is a function of
/// the text alone.
pub uninterp spec fn b64_decoded(s: Seq<char>) -> Option<Seq<u8>>;

/// Relies on base64's standard engine `decode`: the result depends on
/// the text alone.
#[verifier::external_body]
fn b64_decode(s: &str) -> (r: Option<Vec<u8>>)
    ensures
        match r {
            Some(b) => b64_decoded(s@) == Some(b@),
            None => b64_decoded(s@) is None,
        },
{
    base64::Engine::decode(&base64::engine::general_purpose::STANDARD, s).ok()
}

/// The payload value of a delivery: no bytes give null; a JSON text
/// gives its value; anything else is kept as the decoded text.
pub open spec fn spec_payload_value(bytes: Seq<u8>) -> Jv {
    let s = utf8_lossy_of(bytes);
    if s.len() == 0 {
        Jv::Null
    } else {
        match parsed_json(s) {
            Some(v) => v,
            None => Jv::Str(s),
        }
    }
}

/// Base64-decoded content stored under a target name: the raw bytes
/// and their lowercase hex text.
pub struct Base64Decoded {
    pub raw: Vec<u8>,
    pub hex: String,
}

impl View for Base64Decoded {
    type V = (Seq<u8>, Seq<char>);

    open spec fn view(&self) -> (Seq<u8>, Seq<char>) {
        (self.raw@, self.hex@)
    }
}

impl DeepView for Base64Decoded {
    type V = (Seq<u8>, Seq<char>);

    open spec fn deep_view(&self) -> (Seq<u8>, Seq<char>) {
        self.view()
    }
}

/// A parsed delivery: the topic segments, the payload value, the
/// delivery QoS, a timestamp once dispatch stamps one, and the decoded
/// base64 content when the pre-decode is configured and succeeded.
pub struct ParsedMessage {
    pub topic: Vec<String>,
    pub payload: JsonValue,
    pub timestamp: Option<i64>,
    pub qos: u8,
    pub base64decoded: Option<Vec<(String, Base64Decoded)>>,
}

/// The model of a parsed delivery.
pub ghost struct MsgV {
    pub topic: Seq<Seq<char>>,
    pub payload: Jv,
    pub timestamp: Option<int>,
    pub qos: int,
    pub base64decoded: Option<Seq<(Seq<char>, (Seq<u8>, Seq<char>))>>,
}

impl View for ParsedMessage {
    type V = MsgV;

    open spec fn view(&self) -> MsgV {
        MsgV {
            topic: self.topic.deep_view(),
            payload: self.payload@,
            timestamp: match self.timestamp {
                Some(t) => Some(t as int),
                None => None,
            },
            qos: self.qos as int,
            base64decoded: match &self.base64decoded {
                Some(m) => Some(m.deep_view()),
                None => None,
            },
        }
    }
}

/// The JSON items standing for the topic segments.
pub open spec fn spec_topic_items(t: Seq<Seq<char>>) -> Seq<Jv> {
    Seq::new(t.len(), |i: int| Jv::Str(t[i]))
}

/// The JSON items standing for raw bytes.
pub open spec fn spec_byte_items(b: Seq<u8>) -> Seq<Jv> {
    Seq::new(b.len(), |i: int| Jv::Int(b[i] as int))
}

/// The JSON entries standing for decoded base64 content.
pub open spec fn spec_b64_entries(m: Seq<(Seq<char>, (Seq<u8>, Seq<char>))>) -> Seq<
    (Seq<char>, Jv),
> {
    Seq::new(
        m.len(),
        |i: int|
            (
                m[i].0,
                Jv::Object(
                    seq![
                        ("hex"@, Jv::Str(m[i].1.1)),
                        ("raw"@, Jv::Array(spec_byte_items(m[i].1.0))),
                    ],
                ),
            ),
    )
}

/// The composed message object that paths and expressions are resolved
/// against: the decoded base64 content when present, the payload, the
/// QoS, the timestamp and the topic segments, each under its key.
pub open spec fn spec_message_object(m: MsgV) -> Jv {
    let head: Seq<(Seq<char>, Jv)> = match m.base64decoded {
        Some(entries) => seq![("base64decoded"@, Jv::Object(spec_b64_entries(entries)))],
        None => Seq::<(Seq<char>, Jv)>::empty(),
    };
    Jv::Object(
        head + seq![
            ("payload"@, m.payload),
            ("qos"@, Jv::Int(m.qos)),
            (
                "timestamp"@,
                match m.timestamp {
                    Some(t) => Jv::Int(t),
                    None => Jv::Null,
                },
            ),
            ("topic"@, Jv::Array(spec_topic_items(m.topic))),
        ],
    )
}

/// A numeric value's text, for binding an expression variable: the
/// decimal text of an integer, or a float's display text.
pub open spec fn spec_numeric_text(v: Jv) -> Option<Seq<char>> {
    match v {
        Jv::Int(i) => Some(spec_i64_dec(i)),
        Jv::UInt(u) => Some(spec_dec_digits(u)),
        Jv::Float(t) => Some(t),
        _ => None,
    }
}

/// The variable bindings for the found paths, in path order: each path
/// that resolves to a number binds its variable name to that number's
/// text; the others stay unbound.
pub open spec fn spec_bindings(paths: Seq<Seq<char>>, obj: Jv, i: int) -> Seq<
    (Seq<char>, Seq<char>),
>
    decreases paths.len() - i,
{
    if i < 0 || i >= paths.len() {
        Seq::<(Seq<char>, Seq<char>)>::empty()
    } else {
        let rest = spec_bindings(paths, obj, i + 1);
        match spec_parse_path(paths[i]) {
            Some(segs) => match spec_extract(segs, obj) {
                Some(v) => match spec_numeric_text(v) {
                    Some(t) => seq![(spec_jsonpath_to_variable(paths[i]), t)] + rest,
                    None => rest,
                },
                None => rest,
            },
            None => rest,
        }
    }
}

/// What an expression-mode value is: the body's paths are bound from
/// the object, the rewritten body goes to the evaluator, and a numeric
/// result becomes a float value (a non-finite one collapses to null);
/// an empty body or a failed evaluation is absent.
pub open spec fn spec_eval_value(s: Seq<char>, obj: Jv) -> Option<Jv> {
    let body = spec_expression_body(s);
    if body.len() == 0 {
        None
    } else {
        match crate::expr::eval_result(
            spec_converted_expression(body),
            spec_bindings(spec_expression_paths(body), obj, 0),
        ) {
            Some(t) => Some(
                if is_nonfinite_float_text(t) {
                    Jv::Null
                } else {
                    Jv::Float(t)
                },
            ),
            None => None,
        }
    }
}

/// What a value text yields against a message object: an empty text is
/// absent; a text starting with `=` is an expression; a text holding
/// `$.` is a path, absent when it does not parse or resolve; any other
/// text stands for itself.
pub open spec fn spec_get_value(s: Seq<char>, obj: Jv) -> Option<Jv> {
    if s.len() == 0 {
        None
    } else if s[0] == '=' {
        spec_eval_value(s, obj)
    } else if contains_seq(s, seq!['$', '.']) {
        match spec_parse_path(s) {
            Some(segs) => spec_extract(segs, obj),
            None => None,
        }
    } else {
        Some(Jv::Str(s))
    }
}

/// What a field binding yields: its value text resolved, then coerced
/// when the binding carries a type tag.
pub open spec fn spec_extract_field(f: &crate::config::FieldSpec, m: MsgV) -> Option<Jv> {
    match f {
        crate::config::FieldSpec::Simple(s) => spec_get_value(s@, spec_message_object(m)),
        crate::config::FieldSpec::Typed(c) => match spec_get_value(
            c.value@,
            spec_message_object(m),
        ) {
            Some(v) => match c.field_type {
                Some(t) => spec_convert_type(v, t@),
                None => Some(v),
            },
            None => None,
        },
    }
}

/// What the base64 pre-decode finds: the source path resolved against
/// the object must give a string that decodes.
pub open spec fn spec_b64_raw(source: Seq<char>, obj: Jv) -> Option<Seq<u8>> {
    match spec_parse_path(source) {
        Some(segs) => match spec_extract(segs, obj) {
            Some(Jv::Str(s)) => b64_decoded(s),
            _ => None,
        },
        None => None,
    }
}

/// The message processor: stateless but for the base64 pre-decode
/// configuration.
pub struct MessageProcessor {
    pub base64_config: Option<Base64DecodeConfig>,
}

impl MessageProcessor {
    /// A processor with an optional base64 pre-decode configuration.
    pub fn new(base64_config: Option<Base64DecodeConfig>) -> (r: MessageProcessor)
        ensures
            (match base64_config {
                Some(c) => r.base64_config matches Some(rc) && rc.source@ == c.source@
                    && rc.target@ == c.target@,
                None => r.base64_config is None,
            }),
    {
        MessageProcessor { base64_config }
    }

    /// Parse a delivery: split the topic, decode the payload, and run
    /// the base64 pre-decode when it is configured.
    pub fn parse_message(&self, topic: &str, payload: &[u8], qos: u8) -> (r: Result<
        ParsedMessage,
        SinqttError,
    >)
        ensures
            r matches Ok(m) && m@.topic == spec_split_slash(topic@) && m@.payload
                == spec_payload_value(payload@) && (m@.timestamp is None) && m@.qos == qos as int
                && (match &self.base64_config {
                Some(cfg) => {
                    let bare = MsgV {
                        topic: spec_split_slash(topic@),
                        payload: spec_payload_value(payload@),
                        timestamp: None,
                        qos: qos as int,
                        base64decoded: None,
                    };
                    match spec_b64_raw(cfg.source@, spec_message_object(bare)) {
                        Some(raw) => m@.base64decoded matches Some(entries) && entries.len() == 1
                            && entries[0].0 == cfg.target@ && entries[0].1.0 == raw
                            && entries[0].1.1 == spec_hex_of(raw),
                        None => m@.base64decoded is None,
                    }
                },
                None => m@.base64decoded is None,
            }),
    {
        let segs = split_segments(topic);
        let mut topic_parts: Vec<String> = Vec::new();
        let mut i: usize = 0;
        let ghost tv = spec_split_slash(topic@);
        proof {
            assert(segs.deep_view() == tv);
        }
        while i < segs.len()
            invariant
                i <= segs@.len(),
                segs.deep_view() == tv,
                topic_parts@.len() == i,
                forall|j: int| 0 <= j < i ==> (#[trigger] topic_parts@[j])@ == tv[j],
            decreases segs@.len() - i,
        {
            proof {
                assert(tv[i as int] =~= segs@[i as int]@);
            }
            topic_parts.push(chars_to_string(&segs[i]));
            i = i + 1;
        }
        proof {
            assert(topic_parts.deep_view() =~~= tv);
        }
        let text = utf8_lossy(payload);
        let payload_value: JsonValue = if text.as_str().is_empty() {
            JsonValue::Null
        } else {
            match parse_json(text.as_str()) {
                Some(v) => v,
                None => JsonValue::Str(text),
            }
        };
        let mut msg = ParsedMessage {
            topic: topic_parts,
            payload: payload_value,
            timestamp: None,
            qos,
            base64decoded: None,
        };
        match &self.base64_config {
            Some(cfg) => {
                let obj = self.build_message_object(&msg);
                match extract_path(cfg.source.as_str(), &obj) {
                    Some(JsonValue::Str(encoded)) => {
                        match b64_decode(encoded.as_str()) {
                            Some(raw) => {
                                let hex = hex_chars(&raw);
                                let entry = Base64Decoded {
                                    raw,
                                    hex: chars_to_string(&hex),
                                };
                                let target_chars = string_to_chars(cfg.target.as_str());
                                let mut entries: Vec<(String, Base64Decoded)> = Vec::new();
                                entries.push((chars_to_string(&target_chars), entry));
                                msg.base64decoded = Some(entries);
                                proof {
                                    assert(msg@.base64decoded matches Some(es) && es.len() == 1);
                                }
                            },
                            None => {},
                        }
                    },
                    Some(_) => {},
                    None => {},
                }
            },
            None => {},
        }
        Ok(msg)
    }

    /// Build the composed message object of a parsed delivery.
    #[verifier::loop_isolation(false)]
    #[verifier::rlimit(60)]
    pub fn build_message_object(&self, msg: &ParsedMessage) -> (r: JsonValue)
        ensures
            r@ == spec_message_object(msg@),
    {
        let ghost mv = msg@;
        let mut entries: Vec<(String, JsonValue)> = Vec::new();
        match &msg.base64decoded {
            Some(decoded) => {
                let mut inner: Vec<(String, JsonValue)> = Vec::new();
                let mut i: usize = 0;
                let ghost dv = decoded.deep_view();
                while i < decoded.len()
                    invariant
                        i <= decoded@.len(),
                        dv == decoded.deep_view(),
                        inner@.len() == i,
                        forall|j: int|
                            0 <= j < i ==> (#[trigger] inner@[j]).0@ == dv[j].0 && inner@[j].1@
                                == spec_b64_entries(dv)[j].1,
                    decreases decoded@.len() - i,
                {
                    proof {
                        assert(dv[i as int] == (decoded@[i as int].0@, (decoded@[i as int].1.raw@,
                        decoded@[i as int].1.hex@)));
                    }
                    let key = lit_str(&decoded[i].0);
                    let mut bytes: Vec<JsonValue> = Vec::new();
                    let raw = &decoded[i].1.raw;
                    let mut k: usize = 0;
                    while k < raw.len()
                        invariant
                            k <= raw@.len(),
                            bytes@.len() == k,
                            forall|j: int|
                                0 <= j < k ==> (#[trigger] bytes@[j])@ == Jv::Int(raw@[j] as int),
                        decreases raw@.len() - k,
                    {
                        bytes.push(JsonValue::Int(raw[k] as i64));
                        k = k + 1;
                    }
                    let ghost bytes_v = bytes@;
                    let mut pair_entries: Vec<(String, JsonValue)> = Vec::new();
                    pair_entries.push(
                        (lit_string("hex"), JsonValue::Str(lit_str(&decoded[i].1.hex))),
                    );
                    pair_entries.push((lit_string("raw"), JsonValue::Array(bytes)));
                    let ghost pe = pair_entries@;
                    let item = JsonValue::Object(pair_entries);
                    proof {
                        crate::json::lemma_jv_of_pairs_props(pe);
                        crate::json::lemma_jv_of_seq_props(bytes_v);
                        assert(jv_of_seq(bytes_v) =~= spec_byte_items(dv[i as int].1.0));
                        assert(jv_of_pairs(pe)[0] == ("hex"@, Jv::Str(dv[i as int].1.1)));
                        assert(jv_of_pairs(pe)[1] == ("raw"@, Jv::Array(
                            spec_byte_items(dv[i as int].1.0),
                        )));
                        assert(jv_of_pairs(pe) =~= seq![
                            ("hex"@, Jv::Str(dv[i as int].1.1)),
                            ("raw"@, Jv::Array(spec_byte_items(dv[i as int].1.0))),
                        ]);
                        assert(item@ == spec_b64_entries(dv)[i as int].1);
                    }
                    inner.push((key, item));
                    i = i + 1;
                }
                let ghost iv = inner@;
                let b64_obj = JsonValue::Object(inner);
                proof {
                    crate::json::lemma_jv_of_pairs_props(iv);
                    assert(jv_of_pairs(iv) =~= spec_b64_entries(dv));
                }
                entries.push((lit_string("base64decoded"), b64_obj));
            },
            None => {},
        }
        let ghost head: Seq<(Seq<char>, Jv)> = match mv.base64decoded {
            Some(es) => seq![("base64decoded"@, Jv::Object(spec_b64_entries(es)))],
            None => Seq::<(Seq<char>, Jv)>::empty(),
        };
        proof {
            assert(entries@.len() == head.len());
            assert(forall|j: int|
                0 <= j < head.len() ==> (#[trigger] entries@[j]).0@ == head[j].0
                    && entries@[j].1@ == head[j].1);
        }
        entries.push((lit_string("payload"), msg.payload.clone()));
        entries.push((lit_string("qos"), JsonValue::Int(msg.qos as i64)));
        let ts_value: JsonValue = match msg.timestamp {
            Some(t) => JsonValue::Int(t),
            None => JsonValue::Null,
        };
        entries.push((lit_string("timestamp"), ts_value));
        let mut topic_items: Vec<JsonValue> = Vec::new();
        let mut i: usize = 0;
        let ghost tv = msg.topic.deep_view();
        while i < msg.topic.len()
            invariant
                i <= msg.topic@.len(),
                tv == msg.topic.deep_view(),
                topic_items@.len() == i,
                forall|j: int| 0 <= j < i ==> (#[trigger] topic_items@[j])@ == Jv::Str(tv[j]),
            decreases msg.topic@.len() - i,
        {
            proof {
                assert(tv[i as int] =~= msg.topic@[i as int]@);
            }
            topic_items.push(JsonValue::Str(lit_str(&msg.topic[i])));
            i = i + 1;
        }
        let ghost ti_v = topic_items@;
        entries.push((lit_string("topic"), JsonValue::Array(topic_items)));
        let ghost ev = entries@;
        let r = JsonValue::Object(entries);
        proof {
            crate::json::lemma_jv_of_pairs_props(ev);
            crate::json::lemma_jv_of_seq_props(ti_v);
            assert(jv_of_seq(ti_v) =~= spec_topic_items(mv.topic));
            let tail: Seq<(Seq<char>, Jv)> = seq![
                ("payload"@, mv.payload),
                ("qos"@, Jv::Int(mv.qos)),
                (
                    "timestamp"@,
                    match mv.timestamp {
                        Some(t) => Jv::Int(t),
                        None => Jv::Null,
                    },
                ),
                ("topic"@, Jv::Array(spec_topic_items(mv.topic))),
            ];
            let hl = head.len() as int;
            assert(jv_of_pairs(ev)[hl] == tail[0]);
            assert(jv_of_pairs(ev)[hl + 1] == tail[1]);
            assert(jv_of_pairs(ev)[hl + 2] == tail[2]);
            assert(jv_of_pairs(ev)[hl + 3] == tail[3]);
            assert(jv_of_pairs(ev) =~= head + tail);
        }
        r
    }

    /// Resolve a value text against a parsed delivery: literal,
    /// path or expression mode, as the text's shape selects.
    pub fn get_value(&self, value_text: &str, msg: &ParsedMessage) -> (r: Option<JsonValue>)
        ensures
            match r {
                Some(v) => spec_get_value(value_text@, spec_message_object(msg@)) == Some(v@),
                None => spec_get_value(value_text@, spec_message_object(msg@)) is None,
            },
    {
        let chars = string_to_chars(value_text);
        if chars.len() == 0 {
            return None;
        }
        let obj = self.build_message_object(msg);
        if chars[0] == '=' {
            return self.eval_value(value_text, &obj);
        }
        let mut dollar_dot: Vec<char> = Vec::new();
        dollar_dot.push('$');
        dollar_dot.push('.');
        proof {
            assert(dollar_dot@ =~= seq!['$', '.']);
        }
        match find_from(&chars, &dollar_dot, 0) {
            Some(k) => {
                proof {
                    crate::strutil::lemma_first_occurrence_some(chars@, dollar_dot@, 0, k as int);
                }
                extract_path(value_text, &obj)
            },
            None => {
                proof {
                    if contains_seq(chars@, dollar_dot@) {
                        let w = choose|w: int| crate::strutil::occurs_at(chars@, dollar_dot@, w);
                        crate::strutil::lemma_occurrence_found(chars@, dollar_dot@, 0, w);
                    }
                }
                Some(JsonValue::Str(lit_string(value_text)))
            },
        }
    }

    /// Evaluate an expression-mode value text against the composed
    /// message object.
    #[verifier::loop_isolation(false)]
    fn eval_value(&self, value_text: &str, obj: &JsonValue) -> (r: Option<JsonValue>)
        ensures
            match r {
                Some(v) => spec_eval_value(value_text@, obj@) == Some(v@),
                None => spec_eval_value(value_text@, obj@) is None,
            },
    {
        let body = expression_body(value_text);
        if body.as_str().is_empty() {
            return None;
        }
        let (_, paths) = parse_expression(body.as_str());
        let ghost pv = spec_expression_paths(spec_expression_body(value_text@));
        let mut bindings: Vec<(String, String)> = Vec::new();
        let mut i: usize = paths.len();
        proof {
            assert(bindings@.len() == 0);
            assert(crate::expr::bindings_view(bindings@) =~= spec_bindings(
                pv,
                obj@,
                paths@.len() as int,
            ));
        }
        while i > 0
            invariant
                i <= paths@.len(),
                paths.deep_view() == pv,
                crate::expr::bindings_view(bindings@) == spec_bindings(pv, obj@, i as int),
            decreases i,
        {
            i = i - 1;
            proof {
                assert(pv[i as int] =~= paths@[i as int]@);
            }
            match extract_path(paths[i].as_str(), obj) {
                Some(value) => {
                    match numeric_text(&value) {
                        Some(t) => {
                            let chars = string_to_chars(paths[i].as_str());
                            let var = crate::exprscan::jsonpath_to_variable_chars(&chars);
                            let ghost before = bindings@;
                            bindings.insert(0, (chars_to_string(&var), t));
                            proof {
                                assert(crate::expr::bindings_view(bindings@) =~= seq![
                                    (spec_jsonpath_to_variable(pv[i as int]), spec_numeric_text(
                                        value@,
                                    )->0),
                                ] + crate::expr::bindings_view(before));
                            }
                        },
                        None => {},
                    }
                },
                None => {},
            }
        }
        match evaluate_expression(value_text, &bindings) {
            Ok(t) => {
                let tc = string_to_chars(t.as_str());
                if crate::coerce::float_text_nonfinite(&tc) {
                    Some(JsonValue::Null)
                } else {
                    Some(JsonValue::Float(t))
                }
            },
            Err(_) => None,
        }
    }

    /// Resolve a field binding against a parsed delivery, coercing when
    /// the binding carries a type tag.
    pub fn extract_field(&self, field: &crate::config::FieldSpec, msg: &ParsedMessage) -> (r:
        Option<JsonValue>)
        ensures
            match r {
                Some(v) => spec_extract_field(field, msg@) == Some(v@),
                None => spec_extract_field(field, msg@) is None,
            },
    {
        match field {
            crate::config::FieldSpec::Simple(s) => self.get_value(s.as_str(), msg),
            crate::config::FieldSpec::Typed(c) => {
                match self.get_value(c.value.as_str(), msg) {
                    Some(v) => match &c.field_type {
                        Some(t) => convert_type(&v, t.as_str()),
                        None => Some(v),
                    },
                    None => None,
                }
            },
        }
    }

    /// Coerce a value to a named type.
    pub fn convert_type(&self, value: &JsonValue, tag: &str) -> (r: Option<JsonValue>)
        ensures
            match r {
                Some(x) => spec_convert_type(value@, tag@) == Some(x@),
                None => spec_convert_type(value@, tag@) is None,
            },
    {
        convert_type(value, tag)
    }

    /// Whether a topic matches a subscription pattern.
    pub fn topic_matches(&self, pattern: &str, topic: &str) -> (r: bool)
        ensures
            r == crate::topic::spec_topic_match(
                spec_split_slash(pattern@),
                spec_split_slash(topic@),
            ),
    {
        crate::topic::topic_matches(pattern, topic)
    }

    /// Whether a schedule designates the minute holding the given Unix
    /// second.
    pub fn schedule_matches_at(&self, schedule: &str, t: i64) -> (r: bool)
        ensures
            r == crate::schedule::spec_schedule_matches(schedule@, t as int),
    {
        crate::schedule::schedule_matches_at_secs(schedule, t)
    }

    /// Whether a schedule designates the current minute: the same gate
    /// as `schedule_matches_at`, at the second the clock gave.
    pub fn schedule_matches(&self, schedule: &str) -> (r: bool)
        ensures
            exists|t: int|
                t >= 0 && r == crate::schedule::spec_schedule_matches(schedule@, t),
    {
        let now = crate::schedule::now_unix_secs();
        let r = crate::schedule::schedule_matches_at_secs(schedule, now);
        proof {
            assert(now as int >= 0 && r == crate::schedule::spec_schedule_matches(
                schedule@,
                now as int,
            ));
        }
        r
    }
}

/// The numeric text of a value, for binding an expression variable.
fn numeric_text(v: &JsonValue) -> (r: Option<String>)
    ensures
        match r {
            Some(t) => spec_numeric_text(v@) == Some(t@),
            None => spec_numeric_text(v@) is None,
        },
{
    match v {
        JsonValue::Int(i) => {
            let digits = i64_dec_chars(*i);
            Some(chars_to_string(&digits))
        },
        JsonValue::UInt(u) => {
            let digits = u64_dec_chars(*u);
            Some(chars_to_string(&digits))
        },
        JsonValue::Float(t) => Some(lit_str(t)),
        _ => None,
    }
}

fn lit_string(s: &str) -> (r: String)
    ensures
        r@ == s@,
{
    let chars = string_to_chars(s);
    chars_to_string(&chars)
}

fn lit_str(s: &String) -> (r: String)
    ensures
        r@ == s@,
{
    s.clone()
}

} // verus!
