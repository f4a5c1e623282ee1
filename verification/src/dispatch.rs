//! The per-delivery dispatch decisions: which point bindings fire for a
//! delivery, what point each composes, and what is forwarded. The
//! transports perform these decisions; nothing here does I/O.

use crate::config::PointConfig;
use crate::http::{spec_content_text, HttpContentBuilder};
use crate::influx::{assoc_view, spec_sorted_insert, FieldValue, Fv, Point, PointV,
    spec_field_from_json};
use crate::json::{JsonValue, Jv};
use crate::jsontext::{json_text_chars, spec_json_text};
use crate::processor::{spec_extract_field, spec_get_value, spec_message_object, MessageProcessor,
    MsgV, ParsedMessage};
use crate::schedule::spec_schedule_matches;
use crate::strutil::{chars_to_string, spec_trim_quotes, trim_quotes};
use crate::topic::{spec_split_slash, spec_topic_match};
use vstd::prelude::*;

verus! {

/// A delivery as the broker hands it over.
pub struct MqttMessage {
    pub topic: String,
    pub payload: Vec<u8>,
    pub qos: u8,
}

/// The command line: the configuration path, and the debug,
/// validate-only and daemon switches.
pub struct Args {
    pub config: String,
    pub debug: bool,
    pub test: bool,
    pub daemon: bool,
}

/// The text a value contributes as a measurement name or tag value: a
/// string stands for itself; any other value is rendered as JSON text
/// with surrounding quotes trimmed.
pub open spec fn spec_value_as_text(v: Jv) -> Seq<char> {
    match v {
        Jv::Str(s) => s,
        _ => spec_trim_quotes(spec_json_text(v)),
    }
}

/// The measurement name a binding yields for a delivery, if any.
pub open spec fn spec_measurement_text(m_spec: Seq<char>, obj: Jv) -> Option<Seq<char>> {
    match spec_get_value(m_spec, obj) {
        Some(v) => Some(spec_value_as_text(v)),
        None => None,
    }
}

/// The tag list composed from the bindings, from entry `i` on, starting
/// from `acc`: each binding that resolves to a non-empty text adds its
/// tag, replacing an equal key.
pub open spec fn spec_tags_acc(
    cfg: Seq<(String, String)>,
    obj: Jv,
    i: int,
    acc: Seq<(Seq<char>, Seq<char>)>,
) -> Seq<(Seq<char>, Seq<char>)>
    decreases cfg.len() - i,
{
    if i < 0 || i >= cfg.len() {
        acc
    } else {
        let acc2 = match spec_get_value(cfg[i].1@, obj) {
            Some(v) => {
                let text = spec_value_as_text(v);
                if text.len() > 0 {
                    spec_sorted_insert(acc, cfg[i].0@, text)
                } else {
                    acc
                }
            },
            None => acc,
        };
        spec_tags_acc(cfg, obj, i + 1, acc2)
    }
}

/// The field list composed from the bindings, from entry `i` on,
/// starting from `acc`: each binding whose value resolves and carries
/// over as a field value adds its field, replacing an equal key.
pub open spec fn spec_fields_acc(
    cfg: Seq<(String, crate::config::FieldSpec)>,
    m: MsgV,
    i: int,
    acc: Seq<(Seq<char>, Fv)>,
) -> Seq<(Seq<char>, Fv)>
    decreases cfg.len() - i,
{
    if i < 0 || i >= cfg.len() {
        acc
    } else {
        let acc2 = match spec_extract_field(&cfg[i].1, m) {
            Some(v) => match spec_field_from_json(v) {
                Some(fv) => spec_sorted_insert(acc, cfg[i].0@, fv),
                None => acc,
            },
            None => acc,
        };
        spec_fields_acc(cfg, m, i + 1, acc2)
    }
}

/// Law: a binding whose value resolves to absent adds no field, and the
/// composed field list is unchanged at that binding.
pub proof fn lemma_absent_adds_no_field(
    cfg: Seq<(String, crate::config::FieldSpec)>,
    m: MsgV,
    i: int,
    acc: Seq<(Seq<char>, Fv)>,
)
    requires
        0 <= i < cfg.len(),
        spec_extract_field(&cfg[i].1, m) is None,
    ensures
        spec_fields_acc(cfg, m, i, acc) == spec_fields_acc(cfg, m, i + 1, acc),
{
}

/// The point a binding composes for a delivery at a given timestamp:
/// its measurement, its tags, its fields, and the timestamp; nothing
/// when the measurement is absent or no field resolves.
pub open spec fn spec_compose_point(cfg: &PointConfig, m: MsgV, now_nanos: int) -> Option<
    PointV,
> {
    let obj = spec_message_object(m);
    match spec_measurement_text(cfg.measurement@, obj) {
        None => None,
        Some(meas) => {
            let fields = spec_fields_acc(cfg.fields@, m, 0, Seq::<(Seq<char>, Fv)>::empty());
            if fields.len() == 0 {
                None
            } else {
                Some(
                    PointV {
                        measurement: meas,
                        tags: spec_tags_acc(
                            cfg.tags@,
                            obj,
                            0,
                            Seq::<(Seq<char>, Seq<char>)>::empty(),
                        ),
                        fields,
                        timestamp: Some(now_nanos),
                    },
                )
            }
        },
    }
}

/// Render a value as a measurement name or tag value text.
fn value_as_text(v: &JsonValue) -> (r: String)
    ensures
        r@ == spec_value_as_text(v@),
{
    match v {
        JsonValue::Str(s) => s.clone(),
        _ => {
            let chars = json_text_chars(v);
            let trimmed = trim_quotes(&chars);
            chars_to_string(&trimmed)
        },
    }
}

/// Compose the point of one binding for a parsed delivery, stamped with
/// the given nanosecond timestamp.
#[verifier::loop_isolation(false)]
pub fn compose_point(
    processor: &MessageProcessor,
    cfg: &PointConfig,
    msg: &ParsedMessage,
    now_nanos: i64,
) -> (r: Option<Point>)
    ensures
        match r {
            Some(p) => p.inv() && spec_compose_point(cfg, msg@, now_nanos as int) == Some(p@),
            None => spec_compose_point(cfg, msg@, now_nanos as int) is None,
        },
{
    let ghost obj = spec_message_object(msg@);
    let measurement = match processor.get_value(cfg.measurement.as_str(), msg) {
        Some(v) => value_as_text(&v),
        None => {
            return None;
        },
    };
    let mut point = Point::new(measurement.as_str());
    let mut i: usize = 0;
    proof {
        assert(point@.tags =~= Seq::<(Seq<char>, Seq<char>)>::empty());
        assert(point@.fields =~= Seq::<(Seq<char>, Fv)>::empty());
    }
    while i < cfg.tags.len()
        invariant
            i <= cfg.tags@.len(),
            point.inv(),
            point@.measurement == spec_value_as_text(
                spec_get_value(cfg.measurement@, obj)->0,
            ),
            (point@.timestamp is None),
            point@.fields.len() == 0,
            spec_tags_acc(cfg.tags@, obj, 0, Seq::<(Seq<char>, Seq<char>)>::empty())
                == spec_tags_acc(cfg.tags@, obj, i as int, point@.tags),
        decreases cfg.tags@.len() - i,
    {
        match processor.get_value(cfg.tags[i].1.as_str(), msg) {
            Some(v) => {
                let text = value_as_text(&v);
                if !text.as_str().is_empty() {
                    point.add_tag(cfg.tags[i].0.as_str(), text.as_str());
                }
            },
            None => {},
        }
        i = i + 1;
    }
    let mut j: usize = 0;
    proof {
        assert(point@.fields =~= Seq::<(Seq<char>, Fv)>::empty());
    }
    while j < cfg.fields.len()
        invariant
            j <= cfg.fields@.len(),
            point.inv(),
            point@.measurement == spec_value_as_text(
                spec_get_value(cfg.measurement@, obj)->0,
            ),
            (point@.timestamp is None),
            point@.tags == spec_tags_acc(
                cfg.tags@,
                obj,
                0,
                Seq::<(Seq<char>, Seq<char>)>::empty(),
            ),
            spec_fields_acc(cfg.fields@, msg@, 0, Seq::<(Seq<char>, Fv)>::empty())
                == spec_fields_acc(cfg.fields@, msg@, j as int, point@.fields),
        decreases cfg.fields@.len() - j,
    {
        match processor.extract_field(&cfg.fields[j].1, msg) {
            Some(v) => {
                match FieldValue::from_json(&v) {
                    Some(fv) => {
                        point.add_field(cfg.fields[j].0.as_str(), fv);
                    },
                    None => {},
                }
            },
            None => {},
        }
        j = j + 1;
    }
    if !point.has_fields() {
        return None;
    }
    point.set_timestamp(now_nanos);
    Some(point)
}

/// The content object composed from the bindings, from entry `i` on,
/// starting from `acc`.
pub open spec fn spec_content_acc(
    cfg: Seq<(String, String)>,
    obj: Jv,
    i: int,
    acc: Seq<(Seq<char>, Seq<char>)>,
) -> Seq<(Seq<char>, Seq<char>)>
    decreases cfg.len() - i,
{
    if i < 0 || i >= cfg.len() {
        acc
    } else {
        let acc2 = match spec_get_value(cfg[i].1@, obj) {
            Some(v) => spec_sorted_insert(acc, cfg[i].0@, spec_content_text(v)),
            None => acc,
        };
        spec_content_acc(cfg, obj, i + 1, acc2)
    }
}

/// The forwarded object of a binding, if any: the content bindings
/// resolved, wrapped as a JSON object; none when no binding is
/// configured or none resolves.
pub open spec fn spec_http_body(cfg: &PointConfig, m: MsgV) -> Option<Jv> {
    let entries = spec_content_acc(
        cfg.httpcontent@,
        spec_message_object(m),
        0,
        Seq::<(Seq<char>, Seq<char>)>::empty(),
    );
    if cfg.httpcontent@.len() == 0 || entries.len() == 0 {
        None
    } else {
        Some(
            Jv::Object(Seq::new(entries.len(), |i: int| (entries[i].0, Jv::Str(entries[i].1)))),
        )
    }
}

/// Compose the forwarded object of one binding for a parsed delivery.
#[verifier::loop_isolation(false)]
pub fn compose_http_body(
    processor: &MessageProcessor,
    cfg: &PointConfig,
    msg: &ParsedMessage,
) -> (r: Option<JsonValue>)
    ensures
        match r {
            Some(v) => spec_http_body(cfg, msg@) == Some(v@),
            None => spec_http_body(cfg, msg@) is None,
        },
{
    let ghost obj = spec_message_object(msg@);
    if cfg.httpcontent.len() == 0 {
        return None;
    }
    let mut content = HttpContentBuilder::new();
    let mut i: usize = 0;
    while i < cfg.httpcontent.len()
        invariant
            i <= cfg.httpcontent@.len(),
            content.inv(),
            spec_content_acc(cfg.httpcontent@, obj, 0, Seq::<(Seq<char>, Seq<char>)>::empty())
                == spec_content_acc(cfg.httpcontent@, obj, i as int, assoc_view(content.content@)),
        decreases cfg.httpcontent@.len() - i,
    {
        match processor.get_value(cfg.httpcontent[i].1.as_str(), msg) {
            Some(v) => {
                content.add_from_json(cfg.httpcontent[i].0.as_str(), &v);
            },
            None => {},
        }
        i = i + 1;
    }
    if content.is_empty() {
        return None;
    }
    Some(content.build_json())
}

/// What dispatch does with one binding for one delivery: nothing when
/// the topic does not match or the schedule gates it out; otherwise the
/// composed point, the binding's bucket override, and the forwarded
/// object when forwarding is on and content is composed.
pub open spec fn spec_plan_point(
    cfg: &PointConfig,
    topic: Seq<char>,
    m: MsgV,
    now_secs: int,
    now_nanos: int,
    with_http: bool,
) -> Option<(PointV, Option<Seq<char>>, Option<Jv>)> {
    if !spec_topic_match(spec_split_slash(cfg.topic@), spec_split_slash(topic)) {
        None
    } else if (match cfg.schedule {
        Some(s) => !spec_schedule_matches(s@, now_secs),
        None => false,
    }) {
        None
    } else {
        match spec_compose_point(cfg, m, now_nanos) {
            None => None,
            Some(p) => Some(
                (
                    p,
                    match cfg.bucket {
                        Some(b) => Some(b@),
                        None => None,
                    },
                    if with_http {
                        spec_http_body(cfg, m)
                    } else {
                        None
                    },
                ),
            ),
        }
    }
}

/// One planned write: the point, the bucket override, and the forwarded
/// object when one is composed.
pub struct PointAction {
    pub point: Point,
    pub bucket: Option<String>,
    pub http_body: Option<JsonValue>,
}

/// Decide what one binding does with one delivery.
pub fn plan_point(
    processor: &MessageProcessor,
    cfg: &PointConfig,
    topic: &str,
    msg: &ParsedMessage,
    now_secs: i64,
    now_nanos: i64,
    with_http: bool,
) -> (r: Option<PointAction>)
    ensures
        match r {
            Some(a) => a.point.inv() && spec_plan_point(
                cfg,
                topic@,
                msg@,
                now_secs as int,
                now_nanos as int,
                with_http,
            ) == Some(
                (
                    a.point@,
                    match &a.bucket {
                        Some(b) => Some(b@),
                        None => None,
                    },
                    match &a.http_body {
                        Some(v) => Some(v@),
                        None => None,
                    },
                ),
            ),
            None => spec_plan_point(
                cfg,
                topic@,
                msg@,
                now_secs as int,
                now_nanos as int,
                with_http,
            ) is None,
        },
{
    if !crate::topic::topic_matches(cfg.topic.as_str(), topic) {
        return None;
    }
    match &cfg.schedule {
        Some(s) => {
            if !crate::schedule::schedule_matches_at_secs(s.as_str(), now_secs) {
                return None;
            }
        },
        None => {},
    }
    match compose_point(processor, cfg, msg, now_nanos) {
        None => None,
        Some(point) => {
            let bucket: Option<String> = match &cfg.bucket {
                Some(b) => Some(b.clone()),
                None => None,
            };
            let http_body: Option<JsonValue> = if with_http {
                compose_http_body(processor, cfg, msg)
            } else {
                None
            };
            Some(PointAction { point, bucket, http_body })
        },
    }
}

} // verus!
