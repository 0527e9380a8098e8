//! The settings that steer sampling and decoding.

use crate::json::json_literal;
use crate::number::{decimal_text, integer_text, Decimal};
use crate::write::{lemma_empty_texts, object_text, optional_member, Sequence};
use vstd::prelude::*;

verus! {

/// The settings of one request. Every one of them is optional and none has
/// a value of its own here: a setting that is not set is not sent, and the
/// server takes its own.
#[derive(Clone, Debug, PartialEq, Eq)]
pub struct Parameter {
    pub mirostat: Option<i32>,
    pub mirostat_eta: Option<Decimal>,
    pub mirostat_tau: Option<Decimal>,
    pub num_ctx: Option<i32>,
    pub repeat_last_n: Option<i32>,
    pub repeat_penalty: Option<Decimal>,
    pub temperature: Option<Decimal>,
    pub seed: Option<i32>,
    pub stop: Option<String>,
    pub num_predict: Option<i32>,
    pub top_k: Option<i32>,
    pub top_p: Option<Decimal>,
    pub min_p: Option<Decimal>,
}

/// The settings as a mathematical value.
pub struct ParameterView {
    pub mirostat: Option<i32>,
    pub mirostat_eta: Option<Decimal>,
    pub mirostat_tau: Option<Decimal>,
    pub num_ctx: Option<i32>,
    pub repeat_last_n: Option<i32>,
    pub repeat_penalty: Option<Decimal>,
    pub temperature: Option<Decimal>,
    pub seed: Option<i32>,
    pub stop: Option<Seq<char>>,
    pub num_predict: Option<i32>,
    pub top_k: Option<i32>,
    pub top_p: Option<Decimal>,
    pub min_p: Option<Decimal>,
}

impl View for Parameter {
    type V = ParameterView;

    open spec fn view(&self) -> ParameterView {
        ParameterView {
            mirostat: self.mirostat,
            mirostat_eta: self.mirostat_eta,
            mirostat_tau: self.mirostat_tau,
            num_ctx: self.num_ctx,
            repeat_last_n: self.repeat_last_n,
            repeat_penalty: self.repeat_penalty,
            temperature: self.temperature,
            seed: self.seed,
            stop: match self.stop {
                Some(stop) => Some(stop@),
                None => None,
            },
            num_predict: self.num_predict,
            top_k: self.top_k,
            top_p: self.top_p,
            min_p: self.min_p,
        }
    }
}

impl ParameterView {
    /// Whether no setting is set.
    pub open spec fn is_unset(self) -> bool {
        &&& self.mirostat is None
        &&& self.mirostat_eta is None
        &&& self.mirostat_tau is None
        &&& self.num_ctx is None
        &&& self.repeat_last_n is None
        &&& self.repeat_penalty is None
        &&& self.temperature is None
        &&& self.seed is None
        &&& self.stop is None
        &&& self.num_predict is None
        &&& self.top_k is None
        &&& self.top_p is None
        &&& self.min_p is None
    }
}

/// The member of an integer setting.
pub open spec fn integer_setting(name: Seq<char>, value: Option<i32>) -> Seq<Seq<char>> {
    optional_member(
        name,
        match value {
            Some(n) => Some(integer_text(n as int)),
            None => None,
        },
    )
}

/// The member of a decimal setting.
pub open spec fn decimal_setting(name: Seq<char>, value: Option<Decimal>) -> Seq<Seq<char>> {
    optional_member(
        name,
        match value {
            Some(number) => Some(decimal_text(number.mantissa as int, number.scale as nat)),
            None => None,
        },
    )
}

/// The member of a text setting.
pub open spec fn text_setting(name: Seq<char>, value: Option<Seq<char>>) -> Seq<Seq<char>> {
    optional_member(
        name,
        match value {
            Some(text) => Some(json_literal(text)),
            None => None,
        },
    )
}

/// The members of the settings' JSON object: one for each setting that is
/// set, under the setting's own name, in the alphabetical order of the names.
pub open spec fn parameter_members(settings: ParameterView) -> Seq<Seq<char>> {
    decimal_setting("min_p"@, settings.min_p) + integer_setting("mirostat"@, settings.mirostat)
        + decimal_setting("mirostat_eta"@, settings.mirostat_eta) + decimal_setting(
        "mirostat_tau"@,
        settings.mirostat_tau,
    ) + integer_setting("num_ctx"@, settings.num_ctx) + integer_setting(
        "num_predict"@,
        settings.num_predict,
    ) + integer_setting("repeat_last_n"@, settings.repeat_last_n) + decimal_setting(
        "repeat_penalty"@,
        settings.repeat_penalty,
    ) + integer_setting("seed"@, settings.seed) + text_setting("stop"@, settings.stop)
        + decimal_setting("temperature"@, settings.temperature) + integer_setting(
        "top_k"@,
        settings.top_k,
    ) + decimal_setting("top_p"@, settings.top_p)
}

/// The settings as JSON text.
pub open spec fn parameter_text(settings: ParameterView) -> Seq<char> {
    object_text(parameter_members(settings))
}

/// Settings of which none is set are written as a JSON object without
/// members.
pub proof fn lemma_unset_parameter_text(settings: ParameterView)
    requires
        settings.is_unset(),
    ensures
        parameter_members(settings) == Seq::<Seq<char>>::empty(),
        parameter_text(settings) == seq!['{', '}'],
{
    assert(parameter_members(settings) =~= Seq::<Seq<char>>::empty());
    lemma_empty_texts();
}

fn write_integer_setting(seq: &mut Sequence, name: &str, value: Option<i32>)
    requires
        old(seq).well_formed(),
    ensures
        final(seq).well_formed(),
        final(seq).opening() == old(seq).opening(),
        final(seq).parts() == old(seq).parts() + integer_setting(name@, value),
{
    match value {
        Some(n) => {
            seq.integer_member(name, n as i64);
            assert(seq.parts() =~= old(seq).parts() + integer_setting(name@, value));
        },
        None => {
            assert(seq.parts() =~= old(seq).parts() + integer_setting(name@, value));
        },
    }
}

fn write_decimal_setting(seq: &mut Sequence, name: &str, value: Option<Decimal>)
    requires
        old(seq).well_formed(),
    ensures
        final(seq).well_formed(),
        final(seq).opening() == old(seq).opening(),
        final(seq).parts() == old(seq).parts() + decimal_setting(name@, value),
{
    match value {
        Some(number) => {
            seq.decimal_member(name, number);
            assert(seq.parts() =~= old(seq).parts() + decimal_setting(name@, value));
        },
        None => {
            assert(seq.parts() =~= old(seq).parts() + decimal_setting(name@, value));
        },
    }
}

impl Parameter {
    /// Settings of which none is set.
    pub fn new() -> (settings: Parameter)
        ensures
            settings@.is_unset(),
    {
        Parameter {
            mirostat: None,
            mirostat_eta: None,
            mirostat_tau: None,
            num_ctx: None,
            repeat_last_n: None,
            repeat_penalty: None,
            temperature: None,
            seed: None,
            stop: None,
            num_predict: None,
            top_k: None,
            top_p: None,
            min_p: None,
        }
    }

    /// Writes the settings as a JSON object.
    pub fn to_json(&self) -> (text: String)
        ensures
            text@ == parameter_text(self@),
    {
        let mut seq = Sequence::object();
        assert(seq.parts() =~= Seq::<Seq<char>>::empty());
        write_decimal_setting(&mut seq, "min_p", self.min_p);
        assert(seq.parts() =~= decimal_setting("min_p"@, self@.min_p));
        write_integer_setting(&mut seq, "mirostat", self.mirostat);
        write_decimal_setting(&mut seq, "mirostat_eta", self.mirostat_eta);
        write_decimal_setting(&mut seq, "mirostat_tau", self.mirostat_tau);
        write_integer_setting(&mut seq, "num_ctx", self.num_ctx);
        write_integer_setting(&mut seq, "num_predict", self.num_predict);
        write_integer_setting(&mut seq, "repeat_last_n", self.repeat_last_n);
        write_decimal_setting(&mut seq, "repeat_penalty", self.repeat_penalty);
        write_integer_setting(&mut seq, "seed", self.seed);
        let ghost before = seq.parts();
        match &self.stop {
            Some(stop) => {
                seq.text_member("stop", stop.as_str());
                assert(seq.parts() =~= before + text_setting("stop"@, self@.stop));
            },
            None => {
                assert(seq.parts() =~= before + text_setting("stop"@, self@.stop));
            },
        }
        write_decimal_setting(&mut seq, "temperature", self.temperature);
        write_integer_setting(&mut seq, "top_k", self.top_k);
        write_decimal_setting(&mut seq, "top_p", self.top_p);
        seq.end_object()
    }
}

impl Default for Parameter {
    fn default() -> (settings: Parameter)
        ensures
            settings@.is_unset(),
    {
        Parameter::new()
    }
}

} // verus!
