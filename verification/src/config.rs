//! Configuration entities and their validation, and the pure part of
//! environment-variable expansion in configuration strings.

use crate::error::ConfigError;
use crate::schedule::{cron_is_valid, spec_field_count, spec_normalized_schedule,
    validate_cron_schedule};
use crate::strutil::{chars_to_string, contains_seq, find_from, push_range, string_to_chars};
use vstd::prelude::*;

verus! {

/// Broker connection settings.
#[derive(Clone)]
pub struct MqttConfig {
    pub host: String,
    pub port: u16,
    pub username: Option<String>,
    pub password: Option<String>,
    pub cafile: Option<String>,
    pub certfile: Option<String>,
    pub keyfile: Option<String>,
}

/// Time-series backend settings.
#[derive(Clone)]
pub struct InfluxDBConfig {
    pub host: String,
    pub port: u16,
    pub token: String,
    pub org: String,
    pub bucket: String,
    pub enable_gzip: bool,
}

/// The backend port used when the configuration names none.
pub fn default_influxdb_port() -> (r: u16)
    ensures
        r == 8181,
{
    8181
}

/// HTTP forwarding settings.
#[derive(Clone)]
pub struct HttpConfig {
    pub destination: String,
    pub action: String,
    pub username: Option<String>,
    pub password: Option<String>,
}

/// Base64 pre-decode settings: the value to decode and the name it is
/// stored under.
#[derive(Clone)]
pub struct Base64DecodeConfig {
    pub source: String,
    pub target: String,
}

/// A typed field binding: the value text and an optional coercion tag.
#[derive(Clone)]
pub struct FieldConfig {
    pub value: String,
    pub field_type: Option<String>,
}

/// A field binding: a bare value text, or one with a coercion tag.
#[derive(Clone)]
pub enum FieldSpec {
    Simple(String),
    Typed(FieldConfig),
}

impl FieldSpec {
    /// The value text of the binding.
    pub open spec fn spec_value_text(&self) -> Seq<char> {
        match self {
            FieldSpec::Simple(s) => s@,
            FieldSpec::Typed(c) => c.value@,
        }
    }
}

/// One point binding: a measurement, a topic pattern, an optional
/// bucket override and schedule, and the field, tag and HTTP content
/// bindings.
#[derive(Clone)]
pub struct PointConfig {
    pub measurement: String,
    pub topic: String,
    pub bucket: Option<String>,
    pub schedule: Option<String>,
    pub fields: Vec<(String, FieldSpec)>,
    pub tags: Vec<(String, String)>,
    pub httpcontent: Vec<(String, String)>,
}

/// The whole configuration.
#[derive(Clone)]
pub struct Config {
    pub mqtt: MqttConfig,
    pub influxdb: InfluxDBConfig,
    pub http: Option<HttpConfig>,
    pub base64decode: Option<Base64DecodeConfig>,
    pub points: Vec<PointConfig>,
}

/// Whether a path is accepted by the JSONPath parser. It is a function
/// of the path text alone.
pub uninterp spec fn jsonpath_is_valid(path: Seq<char>) -> bool;

/// Relies on jsonpath_rust's `parse_json_path`: whether the path
/// parses depends on the text alone.
#[verifier::external_body]
pub fn jsonpath_parses(path: &str) -> (r: bool)
    ensures
        r == jsonpath_is_valid(path@),
{
    jsonpath_rust::parser::parse_json_path(path).is_ok()
}

/// Check that a measurement that embeds a path reference is a valid
/// JSONPath that the extractor supports: the JSONPath parser must
/// accept it, and it must fit the dotted, indexed and bracket-quoted
/// shape that resolution handles.
pub fn validate_jsonpath(path: &str) -> (r: Result<(), ConfigError>)
    ensures
        r is Ok <==> (jsonpath_is_valid(path@) && (crate::jsonpath::spec_parse_path(
            path@,
        ) is Some)),
        r is Err ==> (r->Err_0 is InvalidJsonPath),
{
    let supported = crate::jsonpath::parse_path(path).is_some();
    if supported && jsonpath_parses(path) {
        Ok(())
    } else {
        let mut msg = String::new();
        msg.append("invalid JSONPath: ");
        msg.append(path);
        Err(ConfigError::InvalidJsonPath(msg))
    }
}

/// What one point binding must satisfy: a measurement (a valid path
/// when it embeds one), a topic, at least one field, and a usable
/// schedule when one is given.
pub open spec fn spec_point_valid(p: &PointConfig) -> bool {
    &&& p.measurement@.len() > 0
    &&& (contains_seq(p.measurement@, seq!['$', '.']) ==> jsonpath_is_valid(p.measurement@)
        && (crate::jsonpath::spec_parse_path(p.measurement@) is Some))
    &&& p.topic@.len() > 0
    &&& p.fields@.len() > 0
    &&& (match p.schedule {
        Some(s) => spec_field_count(s@, 0) >= 5 && cron_is_valid(spec_normalized_schedule(s@)),
        None => true,
    })
}

/// What the whole configuration must satisfy: a broker host, the
/// backend connection fields, and at least one valid point binding.
pub open spec fn spec_config_valid(c: &Config) -> bool {
    &&& c.mqtt.host@.len() > 0
    &&& c.influxdb.host@.len() > 0
    &&& c.influxdb.token@.len() > 0
    &&& c.influxdb.org@.len() > 0
    &&& c.influxdb.bucket@.len() > 0
    &&& c.points@.len() > 0
    &&& (forall|i: int| 0 <= i < c.points@.len() ==> spec_point_valid(&c.points@[i]))
}

/// Check the configuration's validation rules. Whether referenced TLS
/// files exist is checked where the files are read.
#[verifier::loop_isolation(false)]
pub fn validate_config(config: &Config) -> (r: Result<(), ConfigError>)
    ensures
        r is Ok <==> spec_config_valid(config),
{
    if config.mqtt.host.as_str().is_empty() {
        return Err(ConfigError::Validation(lit_string("MQTT host cannot be empty")));
    }
    if config.influxdb.host.as_str().is_empty() {
        return Err(ConfigError::Validation(lit_string("InfluxDB host cannot be empty")));
    }
    if config.influxdb.token.as_str().is_empty() {
        return Err(ConfigError::Validation(lit_string("InfluxDB token cannot be empty")));
    }
    if config.influxdb.org.as_str().is_empty() {
        return Err(ConfigError::Validation(lit_string("InfluxDB org cannot be empty")));
    }
    if config.influxdb.bucket.as_str().is_empty() {
        return Err(ConfigError::Validation(lit_string("InfluxDB bucket cannot be empty")));
    }
    if config.points.len() == 0 {
        return Err(ConfigError::Validation(lit_string("at least one point must be configured")));
    }
    let mut i: usize = 0;
    while i < config.points.len()
        invariant
            i <= config.points@.len(),
            forall|j: int| 0 <= j < i ==> spec_point_valid(&config.points@[j]),
        decreases config.points@.len() - i,
    {
        let p = &config.points[i];
        if p.measurement.as_str().is_empty() {
            return Err(ConfigError::Validation(lit_string("point measurement cannot be empty")));
        }
        let mc = string_to_chars(p.measurement.as_str());
        let mut dollar_dot: Vec<char> = Vec::new();
        dollar_dot.push('$');
        dollar_dot.push('.');
        proof {
            assert(dollar_dot@ =~= seq!['$', '.']);
        }
        match find_from(&mc, &dollar_dot, 0) {
            Some(k) => {
                proof {
                    crate::strutil::lemma_first_occurrence_some(mc@, dollar_dot@, 0, k as int);
                }
                match validate_jsonpath(p.measurement.as_str()) {
                    Ok(()) => (),
                    Err(e) => {
                        return Err(e);
                    },
                }
            },
            None => {
                proof {
                    if contains_seq(mc@, dollar_dot@) {
                        let w = choose|w: int| crate::strutil::occurs_at(mc@, dollar_dot@, w);
                        crate::strutil::lemma_occurrence_found(mc@, dollar_dot@, 0, w);
                    }
                }
            },
        }
        if p.topic.as_str().is_empty() {
            return Err(ConfigError::Validation(lit_string("point topic cannot be empty")));
        }
        if p.fields.len() == 0 {
            return Err(
                ConfigError::Validation(lit_string("point must have at least one field")),
            );
        }
        match &p.schedule {
            Some(s) => {
                match validate_cron_schedule(s.as_str()) {
                    Ok(()) => (),
                    Err(e) => {
                        return Err(e);
                    },
                }
            },
            None => (),
        }
        i = i + 1;
    }
    Ok(())
}

fn lit_string(s: &str) -> (r: String)
    ensures
        r@ == s@,
{
    let chars = string_to_chars(s);
    chars_to_string(&chars)
}

/// One environment reference in a configuration string: its bounds, the
/// variable name, and the default text when one is given.
pub ghost struct EnvRefV {
    pub lo: int,
    pub hi: int,
    pub name: Seq<char>,
    pub default: Option<Seq<char>>,
}

/// The references of the form `${NAME}` or `${NAME:default}` found
/// scanning left to right: at `${`, the name runs to the first `:` or
/// `}`, and a `:` starts the default, running to the first `}`; without
/// a closing brace, or with an empty name, the `$` is left alone.
pub open spec fn spec_env_refs(s: Seq<char>, i: int) -> Seq<EnvRefV>
    decreases s.len() - i,
    via spec_env_refs_decreases
{
    if i < 0 || i >= s.len() {
        Seq::<EnvRefV>::empty()
    } else if s[i] == '$' && i + 1 < s.len() && s[i + 1] == '{' {
        match spec_env_ref_at(s, i) {
            Some(r) => seq![r] + spec_env_refs(s, r.hi),
            None => spec_env_refs(s, i + 1),
        }
    } else {
        spec_env_refs(s, i + 1)
    }
}

/// The reference starting at `i`, where `s[i..i+2]` is `${`: the name
/// runs to the first `:` or `}`; it must not be empty and must not
/// cross a missing `}`.
pub open spec fn spec_env_ref_at(s: Seq<char>, i: int) -> Option<EnvRefV> {
    let name_end = name_run_end(s, i + 2);
    if name_end >= s.len() || name_end == i + 2 {
        None
    } else if s[name_end] == '}' {
        Some(
            EnvRefV {
                lo: i,
                hi: name_end + 1,
                name: s.subrange(i + 2, name_end),
                default: None,
            },
        )
    } else {
        match crate::strutil::char_pos(s, '}', name_end + 1) {
            Some(close) => Some(
                EnvRefV {
                    lo: i,
                    hi: close + 1,
                    name: s.subrange(i + 2, name_end),
                    default: Some(s.subrange(name_end + 1, close)),
                },
            ),
            None => None,
        }
    }
}

/// The end of the run of characters allowed in a reference name: up to
/// the first `:` or `}`.
pub open spec fn name_run_end(s: Seq<char>, i: int) -> int
    decreases s.len() - i,
{
    if 0 <= i < s.len() && s[i] != ':' && s[i] != '}' {
        name_run_end(s, i + 1)
    } else {
        i
    }
}

pub proof fn lemma_name_run_end(s: Seq<char>, i: int)
    requires
        0 <= i <= s.len(),
    ensures
        i <= name_run_end(s, i) <= s.len(),
    decreases s.len() - i,
{
    if i < s.len() && s[i] != ':' && s[i] != '}' {
        lemma_name_run_end(s, i + 1);
    }
}

#[via_fn]
proof fn spec_env_refs_decreases(s: Seq<char>, i: int) {
    if 0 <= i < s.len() && s[i] == '$' && i + 1 < s.len() && s[i + 1] == '{' {
        lemma_name_run_end(s, i + 2);
        match spec_env_ref_at(s, i) {
            Some(r) => {
                let name_end = name_run_end(s, i + 2);
                if !(name_end >= s.len() || name_end == i + 2) && s[name_end] != '}' {
                    crate::strutil::lemma_char_pos(s, '}', name_end + 1);
                }
            },
            None => {},
        }
    }
}

/// An environment reference found in a configuration string, with the
/// text it replaces.
pub struct EnvRef {
    pub lo: usize,
    pub hi: usize,
    pub name: String,
    pub default: Option<String>,
}

impl View for EnvRef {
    type V = EnvRefV;

    open spec fn view(&self) -> EnvRefV {
        EnvRefV {
            lo: self.lo as int,
            hi: self.hi as int,
            name: self.name@,
            default: match &self.default {
                Some(d) => Some(d@),
                None => None,
            },
        }
    }
}

impl DeepView for EnvRef {
    type V = EnvRefV;

    open spec fn deep_view(&self) -> EnvRefV {
        self.view()
    }
}

fn name_run_end_exec(s: &Vec<char>, i: usize) -> (r: usize)
    requires
        i <= s@.len(),
    ensures
        r == name_run_end(s@, i as int),
        i <= r <= s@.len(),
    decreases s@.len() - i,
{
    if i < s.len() && s[i] != ':' && s[i] != '}' {
        return name_run_end_exec(s, i + 1);
    }
    i
}

/// Find the environment references of a configuration string, left to
/// right.
#[verifier::loop_isolation(false)]
pub fn find_env_refs(s: &str) -> (r: Vec<EnvRef>)
    ensures
        r.deep_view() == spec_env_refs(s@, 0),
{
    let chars = string_to_chars(s);
    let mut out: Vec<EnvRef> = Vec::new();
    let mut i: usize = 0;
    proof {
        assert(out.deep_view() + spec_env_refs(s@, 0) =~= spec_env_refs(s@, 0));
    }
    while i < chars.len()
        invariant
            chars@ == s@,
            i <= s@.len(),
            spec_env_refs(s@, 0) == out.deep_view() + spec_env_refs(s@, i as int),
        decreases s@.len() - i,
    {
        if chars[i] == '$' && i + 1 < chars.len() && chars[i + 1] == '{' {
            proof {
                lemma_name_run_end(s@, i + 2);
            }
            let name_end = name_run_end_exec(&chars, i + 2);
            if name_end >= chars.len() || name_end == i + 2 {
                i = i + 1;
            } else if chars[name_end] == '}' {
                let mut name: Vec<char> = Vec::new();
                push_range(&mut name, &chars, i + 2, name_end);
                let ghost prev = out.deep_view();
                proof {
                    assert(name@ =~= s@.subrange(i + 2, name_end as int));
                }
                let item = EnvRef {
                    lo: i,
                    hi: name_end + 1,
                    name: chars_to_string(&name),
                    default: None,
                };
                proof {
                    assert(item@ == spec_env_ref_at(s@, i as int)->0);
                }
                out.push(item);
                proof {
                    assert(out.deep_view() =~= prev.push(spec_env_ref_at(s@, i as int)->0));
                    assert(out.deep_view() + spec_env_refs(s@, name_end + 1 as int) =~= prev
                        + spec_env_refs(s@, i as int));
                }
                i = name_end + 1;
            } else {
                match crate::strutil::find_char(&chars, '}', name_end + 1) {
                    Some(close) => {
                        let mut name: Vec<char> = Vec::new();
                        push_range(&mut name, &chars, i + 2, name_end);
                        let mut dflt: Vec<char> = Vec::new();
                        push_range(&mut dflt, &chars, name_end + 1, close);
                        let ghost prev = out.deep_view();
                        proof {
                            assert(name@ =~= s@.subrange(i + 2, name_end as int));
                            assert(dflt@ =~= s@.subrange(name_end + 1 as int, close as int));
                        }
                        let item = EnvRef {
                            lo: i,
                            hi: close + 1,
                            name: chars_to_string(&name),
                            default: Some(chars_to_string(&dflt)),
                        };
                        proof {
                            assert(item@ == spec_env_ref_at(s@, i as int)->0);
                        }
                        out.push(item);
                        proof {
                            assert(out.deep_view() =~= prev.push(
                                spec_env_ref_at(s@, i as int)->0,
                            ));
                            assert(out.deep_view() + spec_env_refs(s@, close + 1 as int) =~= prev
                                + spec_env_refs(s@, i as int));
                        }
                        i = close + 1;
                    },
                    None => {
                        i = i + 1;
                    },
                }
            }
        } else {
            i = i + 1;
        }
    }
    proof {
        assert(spec_env_refs(s@, s@.len() as int) =~= Seq::<EnvRefV>::empty());
        assert(out.deep_view() + Seq::<EnvRefV>::empty() =~= out.deep_view());
    }
    out
}

/// The string with each found reference replaced by its value: values
/// are given position by position, in reference order.
pub open spec fn spec_substitute_refs(
    s: Seq<char>,
    refs: Seq<EnvRefV>,
    values: Seq<Seq<char>>,
    i: int,
    pos: int,
) -> Seq<char>
    decreases refs.len() - i,
{
    if i < 0 || i >= refs.len() || i >= values.len() {
        s.skip(pos)
    } else {
        s.subrange(pos, refs[i].lo) + values[i] + spec_substitute_refs(
            s,
            refs,
            values,
            i + 1,
            refs[i].hi,
        )
    }
}

/// Substitute resolved values for the found references, in order. The
/// references and values must line up with the text, as
/// [`find_env_refs`] returns them.
#[verifier::loop_isolation(false)]
pub fn substitute_env_refs(s: &str, refs: &Vec<EnvRef>, values: &Vec<String>) -> (r: String)
    requires
        refs@.len() == values@.len(),
        forall|j: int|
            0 <= j < refs@.len() ==> 0 <= #[trigger] refs@[j]@.lo <= refs@[j]@.hi <= s@.len(),
        forall|j: int| 0 <= j < refs@.len() - 1 ==> #[trigger] refs@[j]@.hi <= refs@[j + 1]@.lo,
    ensures
        r@ == spec_substitute_refs(s@, refs.deep_view(), values.deep_view(), 0, 0),
{
    let chars = string_to_chars(s);
    let mut out: Vec<char> = Vec::new();
    let mut i: usize = 0;
    let mut pos: usize = 0;
    let ghost rv = refs.deep_view();
    let ghost vv = values.deep_view();
    while i < refs.len()
        invariant
            chars@ == s@,
            rv == refs.deep_view(),
            vv == values.deep_view(),
            rv.len() == vv.len(),
            i <= rv.len(),
            i < rv.len() ==> pos <= rv[i as int].lo,
            pos <= s@.len(),
            forall|j: int| 0 <= j < rv.len() ==> 0 <= #[trigger] rv[j].lo <= rv[j].hi <= s@.len(),
            forall|j: int| 0 <= j < rv.len() - 1 ==> #[trigger] rv[j].hi <= rv[j + 1].lo,
            spec_substitute_refs(s@, rv, vv, 0, 0) == out@ + spec_substitute_refs(
                s@,
                rv,
                vv,
                i as int,
                pos as int,
            ),
        decreases rv.len() - i,
    {
        let lo = refs[i].lo;
        let hi = refs[i].hi;
        proof {
            assert(rv[i as int].lo == lo as int && rv[i as int].hi == hi as int);
        }
        let ghost before = out@;
        push_range(&mut out, &chars, pos, lo);
        let vc = string_to_chars(values[i].as_str());
        push_range(&mut out, &vc, 0, vc.len());
        proof {
            assert(vc@.subrange(0, vc@.len() as int) =~= vv[i as int]);
            assert(out@ =~= before + (s@.subrange(pos as int, lo as int) + vv[i as int]));
            assert(out@ + spec_substitute_refs(s@, rv, vv, i + 1, hi as int) =~= before
                + spec_substitute_refs(s@, rv, vv, i as int, pos as int));
        }
        pos = hi;
        i = i + 1;
    }
    push_range(&mut out, &chars, pos, chars.len());
    proof {
        assert(s@.subrange(pos as int, s@.len() as int) =~= s@.skip(pos as int));
    }
    chars_to_string(&out)
}

} // verus!
