//! Time-series points and the line-protocol encoder.

use crate::numfmt::{all_digits, spec_dec_digits, spec_i64_dec};
use crate::numfmt::{i64_dec_chars, u64_dec_chars};
use crate::strutil::{chars_to_string, string_to_chars};
use std::io::Write;
use vstd::prelude::*;
use vstd::string::{StrSliceExecFns, StringExecFns, StringSliceAdditionalSpecFns};

verus! {

/// A field value of a point.
#[derive(Debug, PartialEq)]
pub enum FieldValue {
    /// A floating-point value, held as its decimal display text.
    Float(String),
    Int(i64),
    UInt(u64),
    Str(String),
    Bool(bool),
}

/// The mathematical model of a [`FieldValue`].
pub ghost enum Fv {
    Float(Seq<char>),
    Int(int),
    UInt(int),
    Str(Seq<char>),
    Bool(bool),
}

impl View for FieldValue {
    type V = Fv;

    open spec fn view(&self) -> Fv {
        match self {
            FieldValue::Float(t) => Fv::Float(t@),
            FieldValue::Int(i) => Fv::Int(*i as int),
            FieldValue::UInt(u) => Fv::UInt(*u as int),
            FieldValue::Str(s) => Fv::Str(s@),
            FieldValue::Bool(b) => Fv::Bool(*b),
        }
    }
}

impl Clone for FieldValue {
    /// A clone holds the same modeled value.
    fn clone(&self) -> (r: Self)
        ensures
            r@ == self@,
    {
        match self {
            FieldValue::Float(t) => FieldValue::Float(t.clone()),
            FieldValue::Int(i) => FieldValue::Int(*i),
            FieldValue::UInt(u) => FieldValue::UInt(*u),
            FieldValue::Str(s) => FieldValue::Str(s.clone()),
            FieldValue::Bool(b) => FieldValue::Bool(*b),
        }
    }
}

/// Lexicographic order on character sequences by code point, the order
/// in which tag and field keys are rendered.
pub open spec fn str_lt(a: Seq<char>, b: Seq<char>) -> bool
    decreases a.len(),
{
    if b.len() == 0 {
        false
    } else if a.len() == 0 {
        true
    } else if a[0] < b[0] {
        true
    } else if a[0] > b[0] {
        false
    } else {
        str_lt(a.drop_first(), b.drop_first())
    }
}

/// Two sequences that neither precede nor follow one another are equal.
pub proof fn lemma_str_lt_connected(a: Seq<char>, b: Seq<char>)
    requires
        !str_lt(a, b),
        !str_lt(b, a),
    ensures
        a == b,
    decreases a.len(),
{
    if a.len() == 0 || b.len() == 0 {
        assert(a =~= b);
    } else {
        lemma_str_lt_connected(a.drop_first(), b.drop_first());
        assert(a =~= seq![a[0]] + a.drop_first());
        assert(b =~= seq![b[0]] + b.drop_first());
    }
}

/// Compare two character vectors lexicographically.
pub fn chars_lt(a: &Vec<char>, b: &Vec<char>) -> (r: bool)
    ensures
        r == str_lt(a@, b@),
{
    let mut i: usize = 0;
    let ghost av = a@;
    let ghost bv = b@;
    proof {
        assert(av.skip(0) =~= av);
        assert(bv.skip(0) =~= bv);
    }
    while i < a.len() && i < b.len()
        invariant
            av == a@,
            bv == b@,
            i <= av.len(),
            i <= bv.len(),
            str_lt(av, bv) == str_lt(av.skip(i as int), bv.skip(i as int)),
        decreases av.len() - i,
    {
        proof {
            assert(av.skip(i as int).drop_first() =~= av.skip(i + 1));
            assert(bv.skip(i as int).drop_first() =~= bv.skip(i + 1));
        }
        if a[i] < b[i] {
            return true;
        } else if a[i] > b[i] {
            return false;
        }
        i = i + 1;
    }
    proof {
        if i == av.len() {
            assert(av.skip(i as int).len() == 0);
        }
        if i == bv.len() {
            assert(bv.skip(i as int).len() == 0);
        }
    }
    i == a.len() && i < b.len()
}

/// Escaping for measurement names: `,` and space get a backslash.
pub open spec fn esc_meas_char(c: char) -> Seq<char> {
    if c == ',' || c == ' ' {
        seq!['\\', c]
    } else {
        seq![c]
    }
}

/// Escaping for tag keys, tag values and field keys: `,`, `=` and space
/// get a backslash.
pub open spec fn esc_kv_char(c: char) -> Seq<char> {
    if c == ',' || c == '=' || c == ' ' {
        seq!['\\', c]
    } else {
        seq![c]
    }
}

/// Escaping inside string field values: backslash and `"` get a
/// backslash.
pub open spec fn esc_strval_char(c: char) -> Seq<char> {
    if c == '\\' || c == '"' {
        seq!['\\', c]
    } else {
        seq![c]
    }
}

/// A character sequence escaped character by character.
pub open spec fn char_escaped(s: Seq<char>, f: spec_fn(char) -> Seq<char>) -> Seq<char>
    decreases s.len(),
{
    if s.len() == 0 {
        Seq::<char>::empty()
    } else {
        char_escaped(s.drop_last(), f) + f(s.last())
    }
}

/// The escaped form of a measurement name.
pub open spec fn spec_escape_meas(s: Seq<char>) -> Seq<char> {
    char_escaped(s, |c: char| esc_meas_char(c))
}

/// The escaped form of a tag key, tag value or field key.
pub open spec fn spec_escape_kv(s: Seq<char>) -> Seq<char> {
    char_escaped(s, |c: char| esc_kv_char(c))
}

/// The escaped form of a string field value's body.
pub open spec fn spec_escape_strval(s: Seq<char>) -> Seq<char> {
    char_escaped(s, |c: char| esc_strval_char(c))
}

proof fn lemma_concat_cancel_right(a: Seq<char>, b: Seq<char>, s: Seq<char>)
    requires
        a + s == b + s,
    ensures
        a == b,
{
    assert((a + s).len() == a.len() + s.len());
    assert((b + s).len() == b.len() + s.len());
    assert(a.len() == b.len());
    assert forall|i: int| 0 <= i < a.len() implies a[i] == b[i] by {
        assert((a + s)[i] == a[i]);
        assert((b + s)[i] == b[i]);
    }
    assert(a =~= b);
}

/// Law: character-wise escaping whose blocks each end in the original
/// character is injective; in particular the measurement, tag and field
/// key escapes recover the original from the escaped text.
pub proof fn lemma_char_escaped_injective(a: Seq<char>, b: Seq<char>, f: spec_fn(char) -> Seq<
    char,
>)
    requires
        forall|c: char| (#[trigger] f(c)).len() >= 1,
        forall|c: char| (#[trigger] f(c)).last() == c,
        char_escaped(a, f) == char_escaped(b, f),
    ensures
        a == b,
    decreases a.len(),
{
    if a.len() == 0 {
        if b.len() > 0 {
            assert(char_escaped(b, f).len() >= 1);
        }
        assert(a =~= b);
    } else if b.len() == 0 {
        assert(char_escaped(a, f).len() >= 1);
    } else {
        let ea = char_escaped(a, f);
        assert(ea.last() == a.last()) by {
            assert(f(a.last()).len() >= 1 && f(a.last()).last() == a.last());
        }
        assert(char_escaped(b, f).last() == b.last()) by {
            assert(f(b.last()).len() >= 1 && f(b.last()).last() == b.last());
        }
        assert(a.last() == b.last());
        lemma_concat_cancel_right(char_escaped(a.drop_last(), f), char_escaped(b.drop_last(), f),
            f(a.last()));
        lemma_char_escaped_injective(a.drop_last(), b.drop_last(), f);
        assert(a =~= a.drop_last().push(a.last()));
        assert(b =~= b.drop_last().push(b.last()));
    }
}

/// Law: the escape of a measurement name, tag key, tag value or field
/// key determines the original text.
pub proof fn lemma_escape_injective(a: Seq<char>, b: Seq<char>)
    ensures
        spec_escape_meas(a) == spec_escape_meas(b) ==> a == b,
        spec_escape_kv(a) == spec_escape_kv(b) ==> a == b,
        spec_escape_strval(a) == spec_escape_strval(b) ==> a == b,
{
    if spec_escape_meas(a) == spec_escape_meas(b) {
        lemma_char_escaped_injective(a, b, |c: char| esc_meas_char(c));
    }
    if spec_escape_kv(a) == spec_escape_kv(b) {
        lemma_char_escaped_injective(a, b, |c: char| esc_kv_char(c));
    }
    if spec_escape_strval(a) == spec_escape_strval(b) {
        lemma_char_escaped_injective(a, b, |c: char| esc_strval_char(c));
    }
}

/// Append an escaped form of `s` to `out`. The mode selects the escape:
/// 0 for measurements, 1 for keys and tag values, 2 for string bodies.
#[verifier::loop_isolation(false)]
fn push_escaped(out: &mut Vec<char>, s: &String, mode: u8)
    requires
        mode < 3,
    ensures
        mode == 0 ==> final(out)@ == old(out)@ + spec_escape_meas(s@),
        mode == 1 ==> final(out)@ == old(out)@ + spec_escape_kv(s@),
        mode == 2 ==> final(out)@ == old(out)@ + spec_escape_strval(s@),
{
    let chars = string_to_chars(s.as_str());
    let ghost f: spec_fn(char) -> Seq<char> = if mode == 0 {
        |c: char| esc_meas_char(c)
    } else if mode == 1 {
        |c: char| esc_kv_char(c)
    } else {
        |c: char| esc_strval_char(c)
    };
    let mut i: usize = 0;
    proof {
        assert(old(out)@ + char_escaped(s@.take(0), f) =~= old(out)@);
    }
    while i < chars.len()
        invariant
            chars@ == s@,
            i <= s@.len(),
            out@ == old(out)@ + char_escaped(s@.take(i as int), f),
        decreases s@.len() - i,
    {
        let c = chars[i];
        proof {
            assert(s@.take(i + 1 as int).drop_last() =~= s@.take(i as int));
            assert(s@.take(i + 1 as int).last() == s@[i as int]);
        }
        let escape: bool = if mode == 0 {
            c == ',' || c == ' '
        } else if mode == 1 {
            c == ',' || c == '=' || c == ' '
        } else {
            c == '\\' || c == '"'
        };
        if escape {
            out.push('\\');
        }
        out.push(c);
        proof {
            assert(out@ =~= old(out)@ + char_escaped(s@.take(i + 1 as int), f));
        }
        i = i + 1;
    }
    proof {
        assert(s@.take(s@.len() as int) =~= s@);
    }
}

/// Whether a float display text denotes a whole number: nothing but
/// decimal digits, with at most a leading minus sign.
pub open spec fn is_whole_float_text(t: Seq<char>) -> bool {
    (t.len() > 0 && all_digits(t)) || (t.len() >= 2 && t[0] == '-' && all_digits(t.skip(1)))
}

/// The rendered token of a float field value: whole numbers get a
/// trailing `.0` so that the backend reads them as floats.
pub open spec fn spec_float_token(t: Seq<char>) -> Seq<char> {
    if is_whole_float_text(t) {
        t + seq!['.', '0']
    } else {
        t
    }
}

/// Law: the rendered token of a whole float ends in `.0`, so it always
/// carries a decimal point.
pub proof fn lemma_whole_float_token(t: Seq<char>)
    requires
        is_whole_float_text(t),
    ensures
        spec_float_token(t) == t + seq!['.', '0'],
        exists|i: int| 0 <= i < spec_float_token(t).len() && spec_float_token(t)[i] == '.',
{
    let tok = spec_float_token(t);
    assert(tok[t.len() as int] == '.');
}

/// The rendered token of a field value.
pub open spec fn spec_field_token(v: Fv) -> Seq<char> {
    match v {
        Fv::Float(t) => spec_float_token(t),
        Fv::Int(i) => spec_i64_dec(i) + seq!['i'],
        Fv::UInt(u) => spec_dec_digits(u) + seq!['u'],
        Fv::Str(s) => seq!['"'] + spec_escape_strval(s) + seq!['"'],
        Fv::Bool(b) => if b {
            seq!['t', 'r', 'u', 'e']
        } else {
            seq!['f', 'a', 'l', 's', 'e']
        },
    }
}

/// The rendered text of one tag: nothing when its value is empty, else
/// a comma, the escaped key, `=`, and the escaped value.
pub open spec fn spec_tag_text(t: (Seq<char>, Seq<char>)) -> Seq<char> {
    if t.1.len() == 0 {
        Seq::<char>::empty()
    } else {
        seq![','] + spec_escape_kv(t.0) + seq!['='] + spec_escape_kv(t.1)
    }
}

/// The rendered tag segment: each tag in stored order.
pub open spec fn spec_tags_text(tags: Seq<(Seq<char>, Seq<char>)>) -> Seq<char>
    decreases tags.len(),
{
    if tags.len() == 0 {
        Seq::<char>::empty()
    } else {
        spec_tags_text(tags.drop_last()) + spec_tag_text(tags.last())
    }
}

/// Law: a tag whose value is empty leaves the rendered tag segment
/// unchanged wherever it stands.
pub proof fn lemma_empty_tag_omitted(tags: Seq<(Seq<char>, Seq<char>)>, i: int)
    requires
        0 <= i < tags.len(),
        tags[i].1.len() == 0,
    ensures
        spec_tags_text(tags) == spec_tags_text(tags.remove(i)),
    decreases tags.len(),
{
    if i == tags.len() - 1 {
        assert(tags.remove(i) =~= tags.drop_last());
    } else {
        assert(tags.remove(i).drop_last() =~= tags.drop_last().remove(i));
        assert(tags.remove(i).last() == tags.last());
        lemma_empty_tag_omitted(tags.drop_last(), i);
    }
}

/// The rendered text of one field: the escaped key, `=`, and the value
/// token.
pub open spec fn spec_field_text(f: (Seq<char>, Fv)) -> Seq<char> {
    spec_escape_kv(f.0) + seq!['='] + spec_field_token(f.1)
}

/// The rendered field segment: the fields in stored order, separated by
/// commas.
pub open spec fn spec_fields_text(fields: Seq<(Seq<char>, Fv)>) -> Seq<char>
    decreases fields.len(),
{
    if fields.len() == 0 {
        Seq::<char>::empty()
    } else if fields.len() == 1 {
        spec_field_text(fields[0])
    } else {
        spec_fields_text(fields.drop_last()) + seq![','] + spec_field_text(fields.last())
    }
}

/// Whether an association list is strictly ascending by key.
pub open spec fn keys_sorted<T>(s: Seq<(Seq<char>, T)>) -> bool {
    forall|i: int| 0 <= i < s.len() - 1 ==> str_lt((#[trigger] s[i]).0, s[i + 1].0)
}

/// The key-value views of an association list with string keys.
pub open spec fn assoc_view<T: View>(s: Seq<(String, T)>) -> Seq<(Seq<char>, T::V)> {
    Seq::new(s.len(), |i: int| (s[i].0@, s[i].1@))
}

/// The model of a [`Point`].
pub ghost struct PointV {
    pub measurement: Seq<char>,
    pub tags: Seq<(Seq<char>, Seq<char>)>,
    pub fields: Seq<(Seq<char>, Fv)>,
    pub timestamp: Option<int>,
}

/// The full line-protocol rendering of a point.
pub open spec fn spec_line_protocol(p: PointV) -> Seq<char> {
    spec_escape_meas(p.measurement) + spec_tags_text(p.tags) + seq![' '] + spec_fields_text(
        p.fields,
    ) + match p.timestamp {
        Some(ts) => seq![' '] + spec_i64_dec(ts),
        None => Seq::<char>::empty(),
    }
}

/// A time-series point: a measurement, tags, typed fields and an
/// optional nanosecond timestamp. Tags and fields are kept strictly
/// sorted by key, each key held once.
pub struct Point {
    pub measurement: String,
    pub tags: Vec<(String, String)>,
    pub fields: Vec<(String, FieldValue)>,
    pub timestamp: Option<i64>,
}

impl View for Point {
    type V = PointV;

    open spec fn view(&self) -> PointV {
        PointV {
            measurement: self.measurement@,
            tags: assoc_view(self.tags@),
            fields: assoc_view(self.fields@),
            timestamp: match self.timestamp {
                Some(ts) => Some(ts as int),
                None => None,
            },
        }
    }
}

impl Point {
    /// The sortedness that every point keeps: tag and field keys
    /// strictly ascending.
    pub open spec fn inv(&self) -> bool {
        keys_sorted(self@.tags) && keys_sorted(self@.fields)
    }

    /// A new point with the given measurement and nothing else.
    pub fn new(measurement: &str) -> (r: Point)
        ensures
            r.inv(),
            r@.measurement == measurement@,
            r@.tags.len() == 0,
            r@.fields.len() == 0,
            (r@.timestamp is None),
    {
        let chars = string_to_chars(measurement);
        let r = Point {
            measurement: chars_to_string(&chars),
            tags: Vec::new(),
            fields: Vec::new(),
            timestamp: None,
        };
        r
    }

    /// The measurement name.
    pub fn measurement(&self) -> (r: &String)
        ensures
            r@ == self@.measurement,
    {
        &self.measurement
    }

    /// Whether the point carries at least one field.
    pub fn has_fields(&self) -> (r: bool)
        ensures
            r == (self@.fields.len() > 0),
    {
        self.fields.len() > 0
    }

    /// Set the timestamp, in nanoseconds since the Unix epoch.
    pub fn set_timestamp(&mut self, ts: i64)
        ensures
            final(self)@ == (PointV { timestamp: Some(ts as int), ..old(self)@ }),
            old(self).inv() ==> final(self).inv(),
    {
        self.timestamp = Some(ts);
    }

    /// Consuming form of [`Point::set_timestamp`].
    pub fn timestamp(self, ts: i64) -> (r: Point)
        ensures
            r@ == (PointV { timestamp: Some(ts as int), ..self@ }),
            self.inv() ==> r.inv(),
    {
        let mut p = self;
        p.set_timestamp(ts);
        p
    }

    /// Add a tag, replacing one with the same key.
    pub fn add_tag(&mut self, key: &str, value: &str)
        requires
            old(self).inv(),
        ensures
            final(self).inv(),
            final(self)@ == (PointV {
                tags: spec_sorted_insert(old(self)@.tags, key@, value@),
                ..old(self)@
            }),
    {
        let k = string_to_chars(key);
        let v = string_to_chars(value);
        let entry = (chars_to_string(&k), chars_to_string(&v));
        sorted_insert(&mut self.tags, entry);
    }

    /// Consuming form of [`Point::add_tag`].
    pub fn tag(self, key: &str, value: &str) -> (r: Point)
        requires
            self.inv(),
        ensures
            r.inv(),
            r@ == (PointV { tags: spec_sorted_insert(self@.tags, key@, value@), ..self@ }),
    {
        let mut p = self;
        p.add_tag(key, value);
        p
    }

    /// Add a field, replacing one with the same key.
    pub fn add_field(&mut self, key: &str, value: FieldValue)
        requires
            old(self).inv(),
        ensures
            final(self).inv(),
            final(self)@ == (PointV {
                fields: spec_sorted_insert(old(self)@.fields, key@, value@),
                ..old(self)@
            }),
    {
        let k = string_to_chars(key);
        let ghost vv = value@;
        let entry = (chars_to_string(&k), value);
        sorted_insert(&mut self.fields, entry);
    }

    /// Consuming form of [`Point::add_field`].
    pub fn field(self, key: &str, value: FieldValue) -> (r: Point)
        requires
            self.inv(),
        ensures
            r.inv(),
            r@ == (PointV { fields: spec_sorted_insert(self@.fields, key@, value@), ..self@ }),
    {
        let ghost vv = value@;
        let mut p = self;
        p.add_field(key, value);
        p
    }

    /// Add a field taken from a JSON value, when one can be.
    pub fn field_from_json(self, key: &str, value: &crate::json::JsonValue) -> (r: Point)
        requires
            self.inv(),
        ensures
            r.inv(),
            r@ == (match spec_field_from_json(value@) {
                Some(fv) => PointV { fields: spec_sorted_insert(self@.fields, key@, fv), ..self@ },
                None => self@,
            }),
    {
        match FieldValue::from_json(value) {
            Some(fv) => self.field(key, fv),
            None => self,
        }
    }

    /// Render the point in line protocol: the escaped measurement, the
    /// tag segment in ascending key order with empty-valued tags left
    /// out, a space, the field segment in ascending key order, and the
    /// timestamp when one is set.
    pub fn to_line_protocol(&self) -> (r: String)
        requires
            self.inv(),
        ensures
            r@ == spec_line_protocol(self@),
            keys_sorted(self@.tags),
            keys_sorted(self@.fields),
    {
        let chars = self.line_protocol_chars();
        chars_to_string(&chars)
    }

    #[verifier::loop_isolation(false)]
    #[verifier::rlimit(60)]
    fn line_protocol_chars(&self) -> (r: Vec<char>)
        requires
            self.inv(),
        ensures
            r@ == spec_line_protocol(self@),
    {
        let ghost tv = self@.tags;
        let ghost fv = self@.fields;
        let mut out: Vec<char> = Vec::new();
        push_escaped(&mut out, &self.measurement, 0);
        let mut i: usize = 0;
        proof {
            assert(out@ + spec_tags_text(tv.take(0)) =~= out@);
        }
        let ghost base = out@;
        while i < self.tags.len()
            invariant
                i <= self.tags@.len(),
                out@ == base + spec_tags_text(tv.take(i as int)),
            decreases self.tags@.len() - i,
        {
            proof {
                assert(tv.take(i + 1 as int).drop_last() =~= tv.take(i as int));
                assert(tv.take(i + 1 as int).last() == tv[i as int]);
            }
            if !self.tags[i].1.as_str().is_empty() {
                proof {
                    assert(self.tags@[i as int].1@.len() > 0);
                }
                out.push(',');
                push_escaped(&mut out, &self.tags[i].0, 1);
                out.push('=');
                push_escaped(&mut out, &self.tags[i].1, 1);
                proof {
                    assert(out@ =~= base + spec_tags_text(tv.take(i + 1 as int)));
                }
            } else {
                proof {
                    assert(self.tags@[i as int].1@.len() == 0);
                    assert(out@ =~= base + spec_tags_text(tv.take(i + 1 as int)));
                }
            }
            i = i + 1;
        }
        proof {
            assert(tv.take(self.tags@.len() as int) =~= tv);
        }
        out.push(' ');
        let ghost mid = out@;
        let mut j: usize = 0;
        proof {
            assert(mid + spec_fields_text(fv.take(0)) =~= mid);
        }
        while j < self.fields.len()
            invariant
                j <= self.fields@.len(),
                out@ == mid + spec_fields_text(fv.take(j as int)),
            decreases self.fields@.len() - j,
        {
            proof {
                assert(fv.take(j + 1 as int).drop_last() =~= fv.take(j as int));
                assert(fv.take(j + 1 as int).last() == fv[j as int]);
            }
            if j > 0 {
                out.push(',');
            }
            push_escaped(&mut out, &self.fields[j].0, 1);
            out.push('=');
            self.push_field_token(&mut out, j);
            proof {
                if j == 0 {
                    assert(out@ =~= mid + spec_fields_text(fv.take(1)));
                } else {
                    assert(out@ =~= mid + spec_fields_text(fv.take(j + 1 as int)));
                }
            }
            j = j + 1;
        }
        proof {
            assert(fv.take(self.fields@.len() as int) =~= fv);
        }
        match self.timestamp {
            Some(ts) => {
                out.push(' ');
                let ghost pre = out@;
                let digits = i64_dec_chars(ts);
                crate::strutil::push_range(&mut out, &digits, 0, digits.len());
                proof {
                    assert(digits@.subrange(0, digits@.len() as int) =~= digits@);
                    assert(out@ =~= spec_line_protocol(self@));
                }
            },
            None => {
                proof {
                    assert(out@ =~= spec_line_protocol(self@));
                }
            },
        }
        out
    }

    #[verifier::loop_isolation(false)]
    fn push_field_token(&self, out: &mut Vec<char>, j: usize)
        requires
            j < self.fields@.len(),
        ensures
            final(out)@ == old(out)@ + spec_field_token(self@.fields[j as int].1),
    {
        match &self.fields[j].1 {
            FieldValue::Float(t) => {
                let chars = string_to_chars(t.as_str());
                let whole = float_text_is_whole(&chars);
                crate::strutil::push_range(out, &chars, 0, chars.len());
                proof {
                    assert(chars@.subrange(0, chars@.len() as int) =~= chars@);
                }
                if whole {
                    out.push('.');
                    out.push('0');
                    proof {
                        assert(out@ =~= old(out)@ + (t@ + seq!['.', '0']));
                    }
                }
            },
            FieldValue::Int(i) => {
                let digits = i64_dec_chars(*i);
                crate::strutil::push_range(out, &digits, 0, digits.len());
                out.push('i');
                proof {
                    assert(digits@.subrange(0, digits@.len() as int) =~= digits@);
                    assert(out@ =~= old(out)@ + (spec_i64_dec(*i as int) + seq!['i']));
                }
            },
            FieldValue::UInt(u) => {
                let digits = u64_dec_chars(*u);
                crate::strutil::push_range(out, &digits, 0, digits.len());
                out.push('u');
                proof {
                    assert(digits@.subrange(0, digits@.len() as int) =~= digits@);
                    assert(out@ =~= old(out)@ + (spec_dec_digits(*u as int) + seq!['u']));
                }
            },
            FieldValue::Str(s) => {
                out.push('"');
                push_escaped(out, s, 2);
                out.push('"');
                proof {
                    assert(out@ =~= old(out)@ + (seq!['"'] + spec_escape_strval(s@) + seq!['"']));
                }
            },
            FieldValue::Bool(b) => {
                if *b {
                    out.push('t');
                    out.push('r');
                    out.push('u');
                    out.push('e');
                } else {
                    out.push('f');
                    out.push('a');
                    out.push('l');
                    out.push('s');
                    out.push('e');
                }
                proof {
                    assert(out@ =~= old(out)@ + spec_field_token(self@.fields[j as int].1));
                }
            },
        }
    }
}

/// Whether a character vector is a whole float display text.
#[verifier::loop_isolation(false)]
pub fn float_text_is_whole(t: &Vec<char>) -> (r: bool)
    ensures
        r == is_whole_float_text(t@),
{
    if t.len() == 0 {
        return false;
    }
    let signed: bool = t[0] == '-';
    let from: usize = if signed {
        1
    } else {
        0
    };
    if t.len() == from {
        return false;
    }
    let mut i: usize = from;
    while i < t.len()
        invariant
            from <= i <= t@.len(),
            forall|k: int| from <= k < i ==> crate::numfmt::is_digit(t@[k]),
        decreases t@.len() - i,
    {
        let c = t[i];
        if !('0' <= c && c <= '9') {
            proof {
                if signed {
                    assert(t@.skip(1)[i - 1] == t@[i as int]);
                }
            }
            return false;
        }
        i = i + 1;
    }
    proof {
        if signed {
            assert forall|k: int| 0 <= k < t@.skip(1).len() implies crate::numfmt::is_digit(
                t@.skip(1)[k],
            ) by {
                assert(t@.skip(1)[k] == t@[k + 1]);
            }
        }
    }
    true
}

/// What inserting a key and value into a sorted association list gives:
/// an equal key's entry is replaced, else the new entry stands in key
/// order.
pub open spec fn spec_sorted_insert<T>(s: Seq<(Seq<char>, T)>, k: Seq<char>, v: T) -> Seq<
    (Seq<char>, T),
>
    decreases s.len(),
{
    if s.len() == 0 {
        seq![(k, v)]
    } else if str_lt(s.last().0, k) {
        s.push((k, v))
    } else if s.last().0 == k {
        s.drop_last().push((k, v))
    } else {
        spec_sorted_insert(s.drop_last(), k, v).push(s.last())
    }
}

/// Inserting into a sorted list keeps it sorted, and the result ends
/// either in the new entry or in the old last entry.
pub proof fn lemma_sorted_insert_sorted<T>(s: Seq<(Seq<char>, T)>, k: Seq<char>, v: T)
    requires
        keys_sorted(s),
    ensures
        keys_sorted(spec_sorted_insert(s, k, v)),
        spec_sorted_insert(s, k, v).last().0 == k || (s.len() > 0 && spec_sorted_insert(s, k, v)
            .last() == s.last()),
        spec_sorted_insert(s, k, v).len() >= 1,
    decreases s.len(),
{
    let r = spec_sorted_insert(s, k, v);
    if s.len() == 0 {
    } else if str_lt(s.last().0, k) {
    } else if s.last().0 == k {
    } else {
        let s2 = s.drop_last();
        assert(keys_sorted(s2)) by {
            assert(forall|i: int|
                0 <= i < s2.len() - 1 ==> (#[trigger] s2[i]) == s[i] && s2[i + 1] == s[i + 1]);
        }
        lemma_sorted_insert_sorted(s2, k, v);
        let r2 = spec_sorted_insert(s2, k, v);
        assert(str_lt(k, s.last().0)) by {
            if !str_lt(k, s.last().0) {
                lemma_str_lt_connected(s.last().0, k);
            }
        }
        if r2.last().0 == k {
            assert(str_lt(r2.last().0, s.last().0));
        } else {
            assert(s2.len() > 0 && r2.last() == s2.last());
            assert(str_lt(s2[s2.len() - 1].0, s[s.len() - 1].0)) by {
                assert(str_lt(s[s.len() - 2].0, s[s.len() - 1].0));
            }
        }
        assert(keys_sorted(r)) by {
            assert(forall|i: int| 0 <= i < r2.len() - 1 ==> (#[trigger] r[i]) == r2[i] && r[i + 1]
                == r2[i + 1]);
            assert(r[r.len() - 2] == r2.last() && r[r.len() - 1] == s.last());
        }
    }
}

/// Where every remaining key follows `k`, insertion touches only the
/// leading part of the list.
proof fn lemma_sorted_insert_split<T>(s: Seq<(Seq<char>, T)>, k: Seq<char>, v: T, i: int)
    requires
        0 <= i <= s.len(),
        forall|j: int| i <= j < s.len() ==> str_lt(k, (#[trigger] s[j]).0),
    ensures
        spec_sorted_insert(s, k, v) == spec_sorted_insert(s.take(i), k, v) + s.skip(i),
    decreases s.len() - i,
{
    if i == s.len() {
        assert(s.take(i) =~= s);
        assert(spec_sorted_insert(s, k, v) + s.skip(i) =~= spec_sorted_insert(s, k, v));
    } else {
        assert(str_lt(k, s.last().0));
        lemma_str_lt_asymmetric(k, s.last().0);
        let s2 = s.drop_last();
        assert(forall|j: int| i <= j < s2.len() ==> (#[trigger] s2[j]) == s[j]);
        lemma_sorted_insert_split(s2, k, v, i);
        assert(s2.take(i) =~= s.take(i));
        assert(spec_sorted_insert(s, k, v) =~= (spec_sorted_insert(s.take(i), k, v) + s2.skip(i))
            .push(s.last()));
        assert((spec_sorted_insert(s.take(i), k, v) + s2.skip(i)).push(s.last())
            =~= spec_sorted_insert(s.take(i), k, v) + s.skip(i));
    }
}

/// Insert an entry into an association list kept strictly sorted by
/// key, replacing the entry of an equal key.
#[verifier::loop_isolation(false)]
pub fn sorted_insert<T: View>(list: &mut Vec<(String, T)>, entry: (String, T))
    requires
        keys_sorted(assoc_view(old(list)@)),
    ensures
        assoc_view(final(list)@) == spec_sorted_insert(assoc_view(old(list)@), entry.0@, entry.1@),
        keys_sorted(assoc_view(final(list)@)),
{
    let ghost s = assoc_view(list@);
    let ghost k = entry.0@;
    let ghost v = entry.1@;
    let kc = string_to_chars(entry.0.as_str());
    let mut i: usize = list.len();
    let mut stop: bool = false;
    while i > 0 && !stop
        invariant
            i <= list@.len(),
            forall|j: int| i <= j < s.len() ==> str_lt(k, (#[trigger] s[j]).0),
            stop ==> i > 0 && !str_lt(k, s[i - 1].0),
        decreases i, (if stop {
            0int
        } else {
            1int
        }),
    {
        let c = string_to_chars(list[i - 1].0.as_str());
        if chars_lt(&kc, &c) {
            i = i - 1;
        } else {
            stop = true;
        }
    }
    proof {
        lemma_sorted_insert_split(s, k, v, i as int);
        lemma_sorted_insert_sorted(s, k, v);
    }
    if i > 0 {
        let c = string_to_chars(list[i - 1].0.as_str());
        if crate::strutil::chars_eq(&kc, &c) {
            proof {
                lemma_str_lt_asymmetric(s.take(i as int).last().0, k);
                assert(!str_lt(s.take(i as int).last().0, k));
                assert(s.take(i as int).drop_last() =~= s.take(i - 1));
            }
            list.remove(i - 1);
            list.insert(i - 1, entry);
            proof {
                assert(assoc_view(list@) =~= s.take(i - 1).push((k, v)) + s.skip(i as int));
                assert(spec_sorted_insert(s, k, v) =~= s.take(i - 1).push((k, v)) + s.skip(
                    i as int,
                ));
            }
            return ;
        }
        proof {
            assert(str_lt(s[i - 1].0, k)) by {
                if !str_lt(s[i - 1].0, k) {
                    lemma_str_lt_connected(s[i - 1].0, k);
                }
            }
            assert(str_lt(s.take(i as int).last().0, k));
        }
        list.insert(i, entry);
        proof {
            assert(assoc_view(list@) =~= s.take(i as int).push((k, v)) + s.skip(i as int));
            assert(spec_sorted_insert(s, k, v) =~= s.take(i as int).push((k, v)) + s.skip(
                i as int,
            ));
        }
        return ;
    }
    list.insert(0, entry);
    proof {
        assert(s.take(0).len() == 0);
        assert(assoc_view(list@) =~= seq![(k, v)] + s.skip(0));
        assert(spec_sorted_insert(s, k, v) =~= seq![(k, v)] + s.skip(0));
    }
}

/// What a field value taken from a JSON value is: numbers, strings and
/// booleans carry over; null, arrays and objects give none.
pub open spec fn spec_field_from_json(v: crate::json::Jv) -> Option<Fv> {
    match v {
        crate::json::Jv::Int(i) => Some(Fv::Int(i)),
        crate::json::Jv::UInt(u) => Some(Fv::UInt(u)),
        crate::json::Jv::Float(t) => Some(Fv::Float(t)),
        crate::json::Jv::Str(s) => Some(Fv::Str(s)),
        crate::json::Jv::Bool(b) => Some(Fv::Bool(b)),
        _ => None,
    }
}

impl FieldValue {
    /// The field value a JSON value carries, if any.
    pub fn from_json(value: &crate::json::JsonValue) -> (r: Option<FieldValue>)
        ensures
            match r {
                Some(fv) => spec_field_from_json(value@) == Some(fv@),
                None => spec_field_from_json(value@) is None,
            },
    {
        match value {
            crate::json::JsonValue::Int(i) => Some(FieldValue::Int(*i)),
            crate::json::JsonValue::UInt(u) => Some(FieldValue::UInt(*u)),
            crate::json::JsonValue::Float(t) => Some(FieldValue::Float(t.clone())),
            crate::json::JsonValue::Str(s) => Some(FieldValue::Str(s.clone())),
            crate::json::JsonValue::Bool(b) => Some(FieldValue::Bool(*b)),
            _ => None,
        }
    }

}

/// The ingestion URL for a write: the host (given a scheme when it has
/// none), the port, and the write path with organisation, bucket and
/// nanosecond precision.
pub open spec fn spec_write_url(
    host: Seq<char>,
    port: int,
    org: Seq<char>,
    bucket: Seq<char>,
) -> Seq<char> {
    let base = if crate::strutil::spec_starts_with(host, "http://"@) || crate::strutil::spec_starts_with(
        host,
        "https://"@,
    ) {
        host
    } else {
        "http://"@ + host
    };
    base + ":"@ + spec_dec_digits(port) + "/api/v2/write?org="@ + org + "&bucket="@ + bucket
        + "&precision=ns"@
}

/// Build the ingestion URL for a write request.
pub fn write_url(host: &str, port: u16, org: &str, bucket: &str) -> (r: String)
    ensures
        r@ == spec_write_url(host@, port as int, org@, bucket@),
{
    let host_chars = string_to_chars(host);
    let http_prefix = string_to_chars("http://");
    let https_prefix = string_to_chars("https://");
    let mut url = String::new();
    if !(crate::strutil::starts_with(&host_chars, &http_prefix) || crate::strutil::starts_with(
        &host_chars,
        &https_prefix,
    )) {
        url.append("http://");
    }
    url.append(host);
    url.append(":");
    let port_digits = u64_dec_chars(port as u64);
    let port_str = chars_to_string(&port_digits);
    url.append(port_str.as_str());
    url.append("/api/v2/write?org=");
    url.append(org);
    url.append("&bucket=");
    url.append(bucket);
    url.append("&precision=ns");
    proof {
        assert(url@ =~= spec_write_url(host@, port as int, org@, bucket@));
    }
    url
}

/// The line-protocol renderings of the points, joined with newlines.
pub open spec fn spec_joined_lines(ps: Seq<PointV>) -> Seq<char>
    decreases ps.len(),
{
    if ps.len() == 0 {
        Seq::<char>::empty()
    } else if ps.len() == 1 {
        spec_line_protocol(ps[0])
    } else {
        spec_joined_lines(ps.drop_last()) + seq!['\n'] + spec_line_protocol(ps.last())
    }
}

/// The models of a vector of points.
pub open spec fn points_view(ps: Seq<Point>) -> Seq<PointV> {
    Seq::new(ps.len(), |i: int| ps[i]@)
}

/// Join the line-protocol renderings of the points with newlines. An
/// empty slice gives the empty body.
#[verifier::loop_isolation(false)]
pub fn join_line_protocol(points: &Vec<Point>) -> (r: String)
    requires
        forall|i: int| 0 <= i < points@.len() ==> (#[trigger] points@[i]).inv(),
    ensures
        r@ == spec_joined_lines(points_view(points@)),
{
    let ghost pv = points_view(points@);
    let mut out = String::new();
    let mut i: usize = 0;
    proof {
        assert(out@ =~= spec_joined_lines(pv.take(0)));
    }
    while i < points.len()
        invariant
            i <= points@.len(),
            out@ == spec_joined_lines(pv.take(i as int)),
        decreases points@.len() - i,
    {
        if i > 0 {
            out.append("\n");
        }
        let line = points[i].to_line_protocol();
        out.append(line.as_str());
        proof {
            reveal_strlit("\n");
            assert("\n"@ =~= seq!['\n']);
            assert(pv.take(i + 1 as int).drop_last() =~= pv.take(i as int));
            assert(pv.take(i + 1 as int).last() == pv[i as int]);
            if i == 0 {
                assert(out@ =~= spec_joined_lines(pv.take(1)));
            } else {
                assert(out@ =~= spec_joined_lines(pv.take(i + 1 as int)));
            }
        }
        i = i + 1;
    }
    proof {
        assert(pv.take(points@.len() as int) =~= pv);
    }
    out
}

/// What gzip compression of a byte sequence gives. flate2 writes
/// reproducible streams (zero timestamp, fixed system byte), so the
/// result is a function of the input alone.
pub uninterp spec fn gzipped(b: Seq<u8>) -> Seq<u8>;

/// Relies on flate2's `GzEncoder` at the default level: the compressed
/// stream depends on the input bytes alone.
#[verifier::external_body]
fn gzip_compress(data: &Vec<u8>) -> (r: Vec<u8>)
    ensures
        r@ == gzipped(data@),
{
    let mut encoder = flate2::write::GzEncoder::new(Vec::new(), flate2::Compression::default());
    let _ = encoder.write_all(data);
    encoder.finish().unwrap_or_else(|_| Vec::new())
}

/// The body bytes of a write request, and whether they are
/// gzip-encoded: the UTF-8 bytes of the joined lines, compressed when
/// compression is enabled.
pub fn prepare_write_body(body: &str, enable_gzip: bool) -> (r: (Vec<u8>, bool))
    ensures
        r.1 == enable_gzip,
        enable_gzip ==> r.0@ == gzipped(body.spec_bytes()),
        !enable_gzip ==> r.0@ == body.spec_bytes(),
{
    let bytes = body.as_bytes_vec();
    if enable_gzip {
        (gzip_compress(&bytes), true)
    } else {
        (bytes, false)
    }
}

/// `str_lt` is a strict order: it never holds both ways.
pub proof fn lemma_str_lt_asymmetric(a: Seq<char>, b: Seq<char>)
    ensures
        str_lt(a, b) ==> !str_lt(b, a),
        str_lt(a, b) ==> a != b,
    decreases a.len(),
{
    if a.len() > 0 && b.len() > 0 {
        lemma_str_lt_asymmetric(a.drop_first(), b.drop_first());
        if a == b {
            assert(a.drop_first() =~= b.drop_first());
        }
    } else {
        if a.len() == 0 && str_lt(a, b) && a == b {
            assert(b.len() == 0);
        }
    }
}

} // verus!
