//! Typed cell values and per-column value limiters.
//!
//! A [`Value`] is a tagged scalar: a signed integer or a text string.  A
//! [`ValueLimiter`] confines what values a column accepts: a declared type,
//! an optional default, an optional closed set of variants and an optional
//! regular-expression pattern.  [`ValueLimiter::qualify`] is the single
//! enforcement point used by every mutation path of the tabular model.

use vstd::prelude::*;

use crate::error::{CedError, CedResult};
use crate::num::{int_chars, int_text_value, is_integer_text};
use crate::text::{is_ws, lower_seq, lower_chars, str_to_chars, chars_eq_str, chars_to_string};

verus! {

// ---------------------------------------------------------------------------
// Value type
// ---------------------------------------------------------------------------
/// The two value types a cell can have.
#[derive(Clone, Copy, PartialEq, Eq, Structural, Debug)]
pub enum ValueType {
    Number,
    Text,
}

impl ValueType {
    /// What `from_str` recognises: the word `number` in any letter case
    /// names the number type; everything else is text.
    pub open spec fn spec_from(s: Seq<char>) -> ValueType {
        if lower_seq(s) == "number"@ {
            ValueType::Number
        } else {
            ValueType::Text
        }
    }

    /// Read a value type from its name; unrecognised names mean text.
    pub fn from_str(src: &str) -> (r: ValueType)
        ensures
            r == ValueType::spec_from(src@),
    {
        let w = lower_chars(&str_to_chars(src));
        if chars_eq_str(&w, "number") {
            ValueType::Number
        } else {
            ValueType::Text
        }
    }

    /// The name `to_text` prints for each value type.
    pub open spec fn spec_text(self) -> Seq<char> {
        match self {
            ValueType::Number => "Number"@,
            ValueType::Text => "Text"@,
        }
    }

    /// The display name of this value type.
    pub fn to_text(&self) -> (r: String)
        ensures
            r@ == self.spec_text(),
    {
        match self {
            ValueType::Number => "Number".to_owned(),
            ValueType::Text => "Text".to_owned(),
        }
    }
}

impl Default for ValueType {
    /// Columns are text unless declared otherwise.
    fn default() -> (r: ValueType)
        ensures
            r == ValueType::Text,
    {
        ValueType::Text
    }
}

// ---------------------------------------------------------------------------
// Value
// ---------------------------------------------------------------------------
/// A typed cell value.
#[derive(Clone, Debug)]
pub enum Value {
    Number(isize),
    Text(String),
}

/// The mathematical content of a [`Value`]: an unbounded integer or a
/// character sequence.
#[verifier::ext_equal]
pub enum ValueModel {
    Number(int),
    Text(Seq<char>),
}

impl View for Value {
    type V = ValueModel;

    open spec fn view(&self) -> ValueModel {
        match self {
            Value::Number(n) => ValueModel::Number(*n as int),
            Value::Text(s) => ValueModel::Text(s@),
        }
    }
}

/// The type tag of a value model.
pub open spec fn value_type_of(v: ValueModel) -> ValueType {
    match v {
        ValueModel::Number(_) => ValueType::Number,
        ValueModel::Text(_) => ValueType::Text,
    }
}

/// The text a value stringifies to: the literal numeral, or the text itself.
pub open spec fn value_text(v: ValueModel) -> Seq<char> {
    match v {
        ValueModel::Number(n) => int_chars(n),
        ValueModel::Text(t) => t,
    }
}

/// What parsing text against a target type yields: text always succeeds,
/// numbers require integer-shaped text.
pub open spec fn spec_parse_value(s: Seq<char>, vt: ValueType) -> Option<ValueModel> {
    match vt {
        ValueType::Text => Some(ValueModel::Text(s)),
        ValueType::Number => if is_integer_text(s) {
            Some(ValueModel::Number(int_text_value(s)))
        } else {
            None
        },
    }
}

/// A sequence of values, abstracted to their models.
pub open spec fn values_model(s: Seq<Value>) -> Seq<ValueModel> {
    s.map_values(|x: Value| x@)
}

impl Value {
    /// The type tag of this value.
    pub fn get_type(&self) -> (r: ValueType)
        ensures
            r == value_type_of(self@),
    {
        match self {
            Value::Number(_) => ValueType::Number,
            Value::Text(_) => ValueType::Text,
        }
    }

    /// Parse text against a target type.  Text always succeeds; a number
    /// requires the text to be a signed integer, else `TypeMismatch`.
    pub fn from_str(src: &str, value_type: ValueType) -> (r: CedResult<Value>)
        ensures
            (r is Ok) == (spec_parse_value(src@, value_type) is Some),
            r is Ok ==> r->Ok_0@ == spec_parse_value(src@, value_type).unwrap(),
            r is Err ==> r->Err_0 is TypeMismatch,
    {
        match value_type {
            ValueType::Number => {
                match crate::num::parse_isize(src) {
                    Some(n) => Ok(Value::Number(n)),
                    None => Err(CedError::TypeMismatch),
                }
            },
            ValueType::Text => Ok(Value::Text(src.to_owned())),
        }
    }

    /// The canonical round-trip text form of this value.
    pub fn to_string(&self) -> (r: String)
        ensures
            r@ == value_text(self@),
    {
        match self {
            Value::Number(n) => crate::num::isize_to_string(*n),
            Value::Text(t) => t.clone(),
        }
    }

    /// An equal copy of this value.  (The derived `Clone` carries no
    /// specification under Verus; verified code copies through this.)
    pub fn duplicate(&self) -> (r: Value)
        ensures
            r@ == self@,
    {
        match self {
            Value::Number(n) => Value::Number(*n),
            Value::Text(s) => Value::Text(s.clone()),
        }
    }

    /// Structural equality of values.
    pub fn eq_value(&self, other: &Value) -> (r: bool)
        ensures
            r == (self@ == other@),
    {
        match (self, other) {
            (Value::Number(a), Value::Number(b)) => *a == *b,
            (Value::Text(a), Value::Text(b)) => *a == *b,
            _ => {
                proof {
                    assert(self@ != other@);
                }
                false
            },
        }
    }
}

// ---------------------------------------------------------------------------
// Regular expressions, behind trusted wrappers
// ---------------------------------------------------------------------------
/// Whether `regex::Regex::new` accepts a pattern; a function of the pattern
/// text alone.
pub uninterp spec fn regex_compiles(pattern: Seq<char>) -> bool;

/// Whether a compiled pattern matches a text; a function of the pattern and
/// the text alone.
pub uninterp spec fn regex_match(pattern: Seq<char>, text: Seq<char>) -> bool;

/// A pattern matches a text: it compiles, and the compiled expression finds
/// a match.  Patterns stored in limiters always compile, so on them this is
/// exactly [`regex_match`].
pub open spec fn pattern_match(pattern: Seq<char>, text: Seq<char>) -> bool {
    regex_compiles(pattern) && regex_match(pattern, text)
}

/// Relies on `regex::Regex::new` and `regex::Regex::is_match`: whether a
/// pattern compiles and matches a text depends on the pattern and the text
/// alone.
#[verifier::external_body]
fn regex_match_exec(pattern: &str, text: &str) -> (r: bool)
    ensures
        r == (regex_compiles(pattern@) && regex_match(pattern@, text@)),
{
    match regex::Regex::new(pattern) {
        Ok(re) => re.is_match(text),
        Err(_) => false,
    }
}

// ---------------------------------------------------------------------------
// Value limiter
// ---------------------------------------------------------------------------
/// A per-column constraint: declared type, optional default, optional closed
/// variant set, optional regular-expression pattern (kept as its source
/// text; matching goes through the trusted regex wrappers).
#[derive(Clone, Debug)]
pub struct ValueLimiter {
    value_type: ValueType,
    default: Option<Value>,
    variant: Option<Vec<Value>>,
    pattern: Option<String>,
}

/// The mathematical content of a [`ValueLimiter`].
#[verifier::ext_equal]
pub struct LimiterModel {
    pub value_type: ValueType,
    pub default: Option<ValueModel>,
    pub variant: Option<Seq<ValueModel>>,
    pub pattern: Option<Seq<char>>,
}

impl View for ValueLimiter {
    type V = LimiterModel;

    closed spec fn view(&self) -> LimiterModel {
        LimiterModel {
            value_type: self.value_type,
            default: match self.default {
                Some(d) => Some(d@),
                None => None,
            },
            variant: match self.variant {
                Some(vs) => Some(values_model(vs@)),
                None => None,
            },
            pattern: match self.pattern {
                Some(p) => Some(p@),
                None => None,
            },
        }
    }
}

/// Whether a value qualifies under a limiter: the type must match; then
/// membership in the variants if any, else a pattern match if any, else
/// every value of the type passes.
pub open spec fn spec_qualify(lim: LimiterModel, v: ValueModel) -> bool {
    if value_type_of(v) != lim.value_type {
        false
    } else if lim.variant is Some {
        lim.variant.unwrap().contains(v)
    } else if lim.pattern is Some {
        pattern_match(lim.pattern.unwrap(), value_text(v))
    } else {
        true
    }
}

/// An unrestricted text limiter, the default for new columns.
pub open spec fn spec_default_limiter() -> LimiterModel {
    LimiterModel { value_type: ValueType::Text, default: None, variant: None, pattern: None }
}

impl Default for ValueLimiter {
    /// An unrestricted text limiter.
    fn default() -> (r: ValueLimiter)
        ensures
            r@ == spec_default_limiter(),
    {
        ValueLimiter { value_type: ValueType::Text, default: None, variant: None, pattern: None }
    }
}

impl ValueLimiter {
    /// The declared type.
    pub fn get_type(&self) -> (r: ValueType)
        ensures
            r == self@.value_type,
    {
        self.value_type
    }

    /// Change the declared type.  Existing defaults or variants are kept as
    /// they are; qualification will reject them if they no longer agree.
    pub fn set_type(&mut self, column_type: ValueType)
        ensures
            final(self)@ == (LimiterModel { value_type: column_type, ..old(self)@ }),
    {
        self.value_type = column_type;
    }

    /// The explicit default value, if one is set.
    pub fn get_default(&self) -> (r: Option<&Value>)
        ensures
            (match r {
                Some(d) => self@.default == Some(d@),
                None => self@.default is None,
            }),
    {
        self.default.as_ref()
    }

    /// The closed variant set, if one is set.
    pub fn get_variant(&self) -> (r: Option<&Vec<Value>>)
        ensures
            (match r {
                Some(vs) => self@.variant == Some(values_model(vs@)),
                None => self@.variant is None,
            }),
    {
        self.variant.as_ref()
    }

    /// The pattern source text, if a pattern is set.
    pub fn get_pattern(&self) -> (r: Option<&String>)
        ensures
            (match r {
                Some(p) => self@.pattern == Some(p@),
                None => self@.pattern is None,
            }),
    {
        self.pattern.as_ref()
    }

    /// Whether a value qualifies under this limiter.
    pub fn qualify(&self, value: &Value) -> (r: bool)
        ensures
            r == spec_qualify(self@, value@),
    {
        if self.value_type != value.get_type() {
            return false;
        }
        match &self.variant {
            Some(vs) => {
                proof {
                    assert(self@.variant == Some(values_model(vs@)));
                }
                let mut i: usize = 0;
                while i < vs.len()
                    invariant
                        i <= vs@.len(),
                        self@.variant == Some(values_model(vs@)),
                        value_type_of(value@) == self@.value_type,
                        forall|j: int| 0 <= j < i ==> (#[trigger] vs@[j])@ != value@,
                    decreases vs@.len() - i,
                {
                    if vs[i].eq_value(value) {
                        proof {
                            assert(values_model(vs@)[i as int] == value@);
                            assert(values_model(vs@).contains(value@));
                        }
                        return true;
                    }
                    i = i + 1;
                }
                proof {
                    if values_model(vs@).contains(value@) {
                        let w = choose|w: int|
                            0 <= w < values_model(vs@).len() && values_model(vs@)[w] == value@;
                        assert(vs@[w]@ == value@);
                    }
                }
                false
            },
            None => {
                match &self.pattern {
                    Some(p) => {
                        let text = value.to_string();
                        regex_match_exec(p.as_str(), text.as_str())
                    },
                    None => true,
                }
            },
        }
    }

    /// Install a variant constraint.  The default must be one of the
    /// variants, else `LimiterConstructionError` and no change.
    pub fn set_variant(&mut self, default: Value, variants: &Vec<Value>) -> (r: CedResult<()>)
        ensures
            (r is Ok) == values_model(variants@).contains(default@),
            r is Ok ==> final(self)@ == (LimiterModel {
                default: Some(default@),
                variant: Some(values_model(variants@)),
                ..old(self)@
            }),
            r is Err ==> final(self)@ == old(self)@ && (r->Err_0 is LimiterConstructionError),
    {
        let mut found = false;
        let mut i: usize = 0;
        while i < variants.len()
            invariant
                i <= variants@.len(),
                found == exists|j: int|
                    0 <= j < i && values_model(variants@)[j] == default@,
            decreases variants@.len() - i,
        {
            if variants[i].eq_value(&default) {
                proof {
                    assert(values_model(variants@)[i as int] == default@);
                }
                found = true;
            }
            i = i + 1;
        }
        if !found {
            proof {
                if values_model(variants@).contains(default@) {
                    let w = choose|w: int|
                        0 <= w < values_model(variants@).len() && values_model(variants@)[w]
                            == default@;
                }
            }
            return Err(CedError::LimiterConstructionError);
        }
        let mut vs: Vec<Value> = Vec::new();
        let mut k: usize = 0;
        while k < variants.len()
            invariant
                k <= variants@.len(),
                vs@.len() == k,
                forall|j: int| 0 <= j < k ==> (#[trigger] vs@[j])@ == variants@[j]@,
            decreases variants@.len() - k,
        {
            vs.push(variants[k].duplicate());
            k = k + 1;
        }
        proof {
            assert forall|j: int| 0 <= j < variants@.len() implies values_model(vs@)[j]
                == values_model(variants@)[j] by {
                assert(values_model(vs@)[j] == vs@[j]@);
                assert(values_model(variants@)[j] == variants@[j]@);
            }
            assert(values_model(vs@) =~= values_model(variants@));
        }
        self.default = Some(default);
        self.variant = Some(vs);
        proof {
            assert(final(self)@ =~= LimiterModel {
                default: Some(default@),
                variant: Some(values_model(variants@)),
                ..old(self)@
            });
        }
        Ok(())
    }

    /// An equal copy of this limiter.  (The derived `Clone` carries no
    /// specification under Verus; verified code copies through this.)
    pub fn duplicate(&self) -> (r: ValueLimiter)
        ensures
            r@ == self@,
    {
        let default = match &self.default {
            Some(d) => Some(d.duplicate()),
            None => None,
        };
        let variant = match &self.variant {
            Some(vs) => {
                let mut out: Vec<Value> = Vec::new();
                let mut k: usize = 0;
                while k < vs.len()
                    invariant
                        k <= vs@.len(),
                        out@.len() == k,
                        forall|j: int| 0 <= j < k ==> (#[trigger] out@[j])@ == vs@[j]@,
                    decreases vs@.len() - k,
                {
                    out.push(vs[k].duplicate());
                    k = k + 1;
                }
                proof {
                    assert forall|j: int| 0 <= j < vs@.len() implies values_model(out@)[j]
                        == values_model(vs@)[j] by {
                        assert(values_model(out@)[j] == out@[j]@);
                        assert(values_model(vs@)[j] == vs@[j]@);
                    }
                    assert(values_model(out@) =~= values_model(vs@));
                }
                Some(out)
            },
            None => None,
        };
        let pattern = match &self.pattern {
            Some(p) => Some(p.clone()),
            None => None,
        };
        let r = ValueLimiter { value_type: self.value_type, default, variant, pattern };
        proof {
            assert(r@ =~= self@);
        }
        r
    }

    /// Install a pattern constraint from its source text.  The pattern must
    /// compile and the default must match it, else
    /// `LimiterConstructionError` and no change.
    pub fn set_pattern(&mut self, default: Value, pattern: &str) -> (r: CedResult<()>)
        ensures
            (r is Ok) == pattern_match(pattern@, value_text(default@)),
            r is Ok ==> final(self)@ == (LimiterModel {
                default: Some(default@),
                pattern: Some(pattern@),
                ..old(self)@
            }),
            r is Err ==> final(self)@ == old(self)@ && (r->Err_0 is LimiterConstructionError),
    {
        let text = default.to_string();
        if !regex_match_exec(pattern, text.as_str()) {
            return Err(CedError::LimiterConstructionError);
        }
        self.default = Some(default);
        self.pattern = Some(pattern.to_owned());
        proof {
            assert(final(self)@ =~= LimiterModel {
                default: Some(default@),
                pattern: Some(pattern@),
                ..old(self)@
            });
        }
        Ok(())
    }
}

/// What parsing each of several texts against a type yields, or nothing if
/// any of them fails.
pub open spec fn spec_parse_values(parts: Seq<Seq<char>>, vt: ValueType) -> Option<Seq<ValueModel>>
    decreases parts.len(),
{
    if parts.len() == 0 {
        Some(Seq::empty())
    } else {
        match (spec_parse_values(parts.drop_last(), vt), spec_parse_value(parts.last(), vt)) {
            (Some(pre), Some(v)) => Some(pre.push(v)),
            _ => None,
        }
    }
}

/// What building a limiter from the four raw fields `type, default,
/// variants, pattern` yields.  Empty fields mean "unset"; variants and
/// patterns require a default; the default and every variant parse against
/// the type; variants take precedence over a pattern; the default must be
/// among the variants, or match the pattern.
pub open spec fn spec_from_line(attrs: Seq<Seq<char>>) -> Result<LimiterModel, CedError> {
    if attrs.len() != 4 {
        Err(CedError::LimiterConstructionError)
    } else {
        let vt = ValueType::spec_from(attrs[0]);
        if attrs[1].len() == 0 {
            if attrs[2].len() == 0 && attrs[3].len() == 0 {
                Ok(LimiterModel { value_type: vt, default: None, variant: None, pattern: None })
            } else {
                Err(CedError::LimiterConstructionError)
            }
        } else {
            match spec_parse_value(attrs[1], vt) {
                None => Err(CedError::TypeMismatch),
                Some(dm) => if attrs[2].len() > 0 {
                    match spec_parse_values(crate::text::split_ws(attrs[2]), vt) {
                        None => Err(CedError::TypeMismatch),
                        Some(vs) => if vs.contains(dm) {
                            Ok(
                                LimiterModel {
                                    value_type: vt,
                                    default: Some(dm),
                                    variant: Some(vs),
                                    pattern: None,
                                },
                            )
                        } else {
                            Err(CedError::LimiterConstructionError)
                        },
                    }
                } else if attrs[3].len() > 0 {
                    if pattern_match(attrs[3], value_text(dm)) {
                        Ok(
                            LimiterModel {
                                value_type: vt,
                                default: Some(dm),
                                variant: None,
                                pattern: Some(attrs[3]),
                            },
                        )
                    } else {
                        Err(CedError::LimiterConstructionError)
                    }
                } else {
                    Ok(
                        LimiterModel {
                            value_type: vt,
                            default: Some(dm),
                            variant: None,
                            pattern: None,
                        },
                    )
                },
            }
        }
    }
}

impl ValueLimiter {
    /// Build a limiter from the four raw fields `type, default, variants,
    /// pattern`, exactly as [`spec_from_line`] says.
    pub fn from_line(attributes: &Vec<String>) -> (r: CedResult<ValueLimiter>)
        ensures
            (r is Ok) == (spec_from_line(attributes.deep_view()) is Ok),
            r is Ok ==> r->Ok_0@ == spec_from_line(attributes.deep_view())->Ok_0,
            r is Err ==> r->Err_0 == spec_from_line(attributes.deep_view())->Err_0,
    {
        let ghost attrs = attributes.deep_view();
        if attributes.len() != 4 {
            return Err(CedError::LimiterConstructionError);
        }
        proof {
            assert(attributes.deep_view()[0] == attributes@[0]@);
            assert(attributes.deep_view()[1] == attributes@[1]@);
            assert(attributes.deep_view()[2] == attributes@[2]@);
            assert(attributes.deep_view()[3] == attributes@[3]@);
        }
        let vt = ValueType::from_str(attributes[0].as_str());
        if attributes[1].as_str().is_empty() {
            if attributes[2].as_str().is_empty() && attributes[3].as_str().is_empty() {
                let r = ValueLimiter { value_type: vt, default: None, variant: None, pattern: None };
                proof {
                    assert(r@ =~= spec_from_line(attrs)->Ok_0);
                }
                return Ok(r);
            }
            return Err(CedError::LimiterConstructionError);
        }
        let default = match Value::from_str(attributes[1].as_str(), vt) {
            Ok(d) => d,
            Err(_) => {
                return Err(CedError::TypeMismatch);
            },
        };
        if !attributes[2].as_str().is_empty() {
            let words = crate::text::split_ws_chars(&crate::text::str_to_chars(
                attributes[2].as_str(),
            ));
            let ghost wordsm = crate::text::split_ws(attrs[2]);
            proof {
                assert(words.deep_view() == wordsm);
                assert(words@.len() == wordsm.len());
            }
            let mut values: Vec<Value> = Vec::new();
            let mut bad = false;
            let mut i: usize = 0;
            while i < words.len()
                invariant
                    i <= words@.len(),
                    words.deep_view() == wordsm,
                    words@.len() == wordsm.len(),
                    bad == (spec_parse_values(wordsm.take(i as int), vt) is None),
                    !bad ==> values_model(values@) == spec_parse_values(
                        wordsm.take(i as int),
                        vt,
                    ).unwrap(),
                    !bad ==> values@.len() == i,
                decreases words@.len() - i,
            {
                proof {
                    assert(wordsm.take(i as int + 1).drop_last() =~= wordsm.take(i as int));
                    assert(wordsm.take(i as int + 1).last() == wordsm[i as int]);
                    assert(words.deep_view()[i as int] == words@[i as int]@);
                }
                let text = crate::text::chars_to_string(&words[i]);
                match Value::from_str(text.as_str(), vt) {
                    Ok(v) => {
                        if !bad {
                            values.push(v);
                            proof {
                                assert(values_model(values@) =~= spec_parse_values(
                                    wordsm.take(i as int + 1),
                                    vt,
                                ).unwrap());
                            }
                        }
                    },
                    Err(_) => {
                        bad = true;
                    },
                }
                i = i + 1;
            }
            proof {
                assert(wordsm.take(wordsm.len() as int) =~= wordsm);
            }
            if bad {
                return Err(CedError::TypeMismatch);
            }
            let mut lim = ValueLimiter {
                value_type: vt,
                default: None,
                variant: None,
                pattern: None,
            };
            let sv = lim.set_variant(default, &values);
            match sv {
                Ok(_) => {
                    proof {
                        assert(lim@ =~= spec_from_line(attrs)->Ok_0);
                    }
                    Ok(lim)
                },
                Err(_) => Err(CedError::LimiterConstructionError),
            }
        } else if !attributes[3].as_str().is_empty() {
            let mut lim = ValueLimiter {
                value_type: vt,
                default: None,
                variant: None,
                pattern: None,
            };
            let sp = lim.set_pattern(default, attributes[3].as_str());
            match sp {
                Ok(_) => {
                    proof {
                        assert(lim@ =~= spec_from_line(attrs)->Ok_0);
                    }
                    Ok(lim)
                },
                Err(_) => Err(CedError::LimiterConstructionError),
            }
        } else {
            let r = ValueLimiter {
                value_type: vt,
                default: Some(default),
                variant: None,
                pattern: None,
            };
            proof {
                assert(r@ =~= spec_from_line(attrs)->Ok_0);
            }
            Ok(r)
        }
    }
}

/// A type-mismatched value never qualifies: a limiter of the `Number` type
/// rejects every `Text` value (and the other way round), whatever its
/// variants or pattern say.
pub proof fn lemma_type_mismatch_never_qualifies(lim: LimiterModel, v: ValueModel)
    requires
        value_type_of(v) != lim.value_type,
    ensures
        !spec_qualify(lim, v),
{
}

} // verus!
