//! Binarized observations: vectors of `1` / `0` / `-` values, and ordered lists of them.

use vstd::prelude::*;
use vstd::string::*;
use crate::text::{push_char, push_str};

verus! {

/// The value of one variable in an observation: true, false, or unknown.
#[derive(Clone, Copy, Debug, Eq, Hash, PartialEq, Structural)]
pub enum VarValue {
    True,
    False,
    Any,
}

/// The character that stands for a value.
pub open spec fn value_char(v: VarValue) -> char {
    match v {
        VarValue::True => '1',
        VarValue::False => '0',
        VarValue::Any => '-',
    }
}

/// The value a character stands for, if any.
pub open spec fn char_value(c: char) -> Option<VarValue> {
    if c == '1' {
        Some(VarValue::True)
    } else if c == '0' {
        Some(VarValue::False)
    } else if c == '-' {
        Some(VarValue::Any)
    } else {
        None
    }
}

/// The values of a line of characters, or the first character that stands for none.
pub open spec fn parse_values(s: Seq<char>) -> Result<Seq<VarValue>, char>
    decreases s.len(),
{
    if s.len() == 0 {
        Ok(Seq::empty())
    } else {
        match parse_values(s.drop_last()) {
            Err(c) => Err(c),
            Ok(vs) => match char_value(s.last()) {
                Some(v) => Ok(vs.push(v)),
                None => Err(s.last()),
            },
        }
    }
}

/// The text of a sequence of values, one character each.
pub open spec fn values_text(vs: Seq<VarValue>) -> Seq<char> {
    vs.map_values(|v: VarValue| value_char(v))
}

/// The message for a character that is no value.
pub open spec fn unexpected_value_message(c: char) -> Seq<char> {
    "Unexpected char '"@ + seq![c] + "' in an observation."@
}

/// The outcome of reading an observation from its text.
pub open spec fn observation_from_text(s: Seq<char>) -> Result<Seq<VarValue>, Seq<char>> {
    match parse_values(s) {
        Err(c) => Err(unexpected_value_message(c)),
        Ok(vs) => if vs.len() == 0 {
            Err("Observation can't be empty."@)
        } else {
            Ok(vs)
        },
    }
}

/// The decimal digit `d`.
pub open spec fn digit_char(d: nat) -> char {
    seq!['0', '1', '2', '3', '4', '5', '6', '7', '8', '9'][d as int]
}

/// The decimal text of `n`, without leading zeros.
pub open spec fn decimal_text(n: nat) -> Seq<char>
    decreases n,
{
    if n < 10 {
        seq![digit_char(n)]
    } else {
        decimal_text(n / 10).push(digit_char(n % 10))
    }
}

/// The character of a decimal digit.
fn digit(d: usize) -> (c: char)
    requires
        d < 10,
    ensures
        c == digit_char(d as nat),
{
    if d == 0 {
        '0'
    } else if d == 1 {
        '1'
    } else if d == 2 {
        '2'
    } else if d == 3 {
        '3'
    } else if d == 4 {
        '4'
    } else if d == 5 {
        '5'
    } else if d == 6 {
        '6'
    } else if d == 7 {
        '7'
    } else if d == 8 {
        '8'
    } else {
        '9'
    }
}

/// Appends the decimal text of `n`.
pub fn push_decimal(s: &mut String, n: usize)
    ensures
        final(s)@ == old(s)@ + decimal_text(n as nat),
    decreases n,
{
    if n >= 10 {
        push_decimal(s, n / 10);
    }
    push_char(s, digit(n % 10));
}

/// The number of positions of `vs` holding `v`.
pub open spec fn count_value(vs: Seq<VarValue>, v: VarValue) -> nat
    decreases vs.len(),
{
    if vs.len() == 0 {
        0
    } else {
        count_value(vs.drop_last(), v) + if vs.last() == v {
            1nat
        } else {
            0nat
        }
    }
}

/// The values other than `Any` are the specified ones.
pub proof fn lemma_counts_add_up(vs: Seq<VarValue>)
    ensures
        count_value(vs, VarValue::True) + count_value(vs, VarValue::False) + count_value(
            vs,
            VarValue::Any,
        ) == vs.len(),
    decreases vs.len(),
{
    if vs.len() > 0 {
        lemma_counts_add_up(vs.drop_last());
    }
}

impl VarValue {
    /// The character standing for this value: `1`, `0` or `-`.
    pub fn to_char(&self) -> (r: char)
        ensures
            r == value_char(*self),
    {
        match self {
            VarValue::True => '1',
            VarValue::False => '0',
            VarValue::Any => '-',
        }
    }

    /// The one-character text of this value.
    pub fn to_string(&self) -> (r: String)
        ensures
            r@ == seq![value_char(*self)],
    {
        let mut s = String::new();
        push_char(&mut s, self.to_char());
        s
    }
}

/// A single observation: a vector of binarized values, one per variable.
#[derive(Clone, Debug, Eq, Hash, PartialEq)]
pub struct Observation {
    pub values: Vec<VarValue>,
}

/// Counts the positions of `values` that hold `v`.
fn count_in(values: &Vec<VarValue>, v: VarValue) -> (r: usize)
    ensures
        r == count_value(values@, v),
        r <= values@.len(),
{
    let mut n: usize = 0;
    let mut i: usize = 0;
    while i < values.len()
        invariant
            i <= values@.len(),
            n == count_value(values@.take(i as int), v),
            n <= i,
        decreases values@.len() - i,
    {
        assert(values@.take(i + 1).drop_last() =~= values@.take(i as int));
        if values[i] == v {
            n = n + 1;
        }
        i = i + 1;
    }
    assert(values@.take(values@.len() as int) =~= values@);
    n
}

/// A vector of `n` copies of `v`.
fn repeat_value(v: VarValue, n: usize) -> (r: Vec<VarValue>)
    ensures
        r@ == Seq::new(n as nat, |i: int| v),
{
    let mut values: Vec<VarValue> = Vec::new();
    let mut i: usize = 0;
    while i < n
        invariant
            i <= n,
            values@ =~= Seq::new(i as nat, |j: int| v),
        decreases n - i,
    {
        values.push(v);
        i = i + 1;
    }
    values
}

impl Observation {
    /// An observation with the given values.
    pub fn new(values: Vec<VarValue>) -> (r: Self)
        ensures
            r.values@ == values@,
    {
        Self { values }
    }

    /// An observation of `n` true values.
    pub fn new_full_true(n: usize) -> (r: Self)
        ensures
            r.values@ == Seq::new(n as nat, |i: int| VarValue::True),
    {
        Self { values: repeat_value(VarValue::True, n) }
    }

    /// An observation of `n` false values.
    pub fn new_full_false(n: usize) -> (r: Self)
        ensures
            r.values@ == Seq::new(n as nat, |i: int| VarValue::False),
    {
        Self { values: repeat_value(VarValue::False, n) }
    }

    /// Reads an observation from its text: one of `1`, `0`, `-` per variable. Fails on any
    /// other character (naming the first one) and on an empty text.
    pub fn try_from_str(observation_string: String) -> (r: Result<Self, String>)
        ensures
            match observation_from_text(observation_string@) {
                Ok(vs) => r matches Ok(o) && o.values@ == vs,
                Err(msg) => r matches Err(e) && e@ == msg,
            },
    {
        let s = observation_string.as_str();
        let n = s.unicode_len();
        let mut values: Vec<VarValue> = Vec::new();
        let mut i: usize = 0;
        while i < n
            invariant
                n == s@.len(),
                s@ == observation_string@,
                i <= n,
                parse_values(s@.take(i as int)) == Ok::<Seq<VarValue>, char>(values@),
            decreases n - i,
        {
            let c = s.get_char(i);
            assert(s@.take(i + 1).drop_last() =~= s@.take(i as int));
            assert(s@.take(i + 1).last() == c);
            if c == '1' {
                values.push(VarValue::True);
            } else if c == '0' {
                values.push(VarValue::False);
            } else if c == '-' {
                values.push(VarValue::Any);
            } else {
                let mut msg = String::new();
                push_str(&mut msg, "Unexpected char '");
                push_char(&mut msg, c);
                push_str(&mut msg, "' in an observation.");
                proof {
                    lemma_parse_values_error_stays(s@, i as int + 1);
                }
                return Err(msg);
            }
            i = i + 1;
        }
        assert(s@.take(n as int) =~= s@);
        if values.len() == 0 {
            return Err(String::from_str("Observation can't be empty."));
        }
        Ok(Self { values })
    }

    /// The number of values.
    pub fn num_values(&self) -> (r: usize)
        ensures
            r == self.values@.len(),
    {
        self.values.len()
    }

    /// The number of unknown (`-`) values.
    pub fn num_unspecified_values(&self) -> (r: usize)
        ensures
            r == count_value(self.values@, VarValue::Any),
    {
        count_in(&self.values, VarValue::Any)
    }

    /// The number of known (`1` or `0`) values.
    pub fn num_specified_values(&self) -> (r: usize)
        ensures
            r == count_value(self.values@, VarValue::True) + count_value(
                self.values@,
                VarValue::False,
            ),
            r == self.values@.len() - count_value(self.values@, VarValue::Any),
    {
        proof {
            lemma_counts_add_up(self.values@);
        }
        self.values.len() - count_in(&self.values, VarValue::Any)
    }

    /// The number of true values.
    pub fn num_ones(&self) -> (r: usize)
        ensures
            r == count_value(self.values@, VarValue::True),
    {
        count_in(&self.values, VarValue::True)
    }

    /// The number of false values.
    pub fn num_zeros(&self) -> (r: usize)
        ensures
            r == count_value(self.values@, VarValue::False),
    {
        count_in(&self.values, VarValue::False)
    }

    /// The text of this observation, such as `001--`.
    pub fn to_string(&self) -> (r: String)
        ensures
            r@ == values_text(self.values@),
    {
        let mut s = String::new();
        let mut i: usize = 0;
        while i < self.values.len()
            invariant
                i <= self.values@.len(),
                s@ == values_text(self.values@.take(i as int)),
            decreases self.values@.len() - i,
        {
            push_char(&mut s, self.values[i].to_char());
            assert(values_text(self.values@.take(i + 1)) =~= values_text(
                self.values@.take(i as int),
            ).push(value_char(self.values@[i as int])));
            i = i + 1;
        }
        assert(self.values@.take(self.values@.len() as int) =~= self.values@);
        s
    }
}

/// Once reading the values has failed on a prefix, it fails on every longer prefix with
/// the same character.
proof fn lemma_parse_values_error_stays(s: Seq<char>, i: int)
    requires
        0 < i <= s.len(),
        parse_values(s.take(i)) is Err,
    ensures
        parse_values(s) == parse_values(s.take(i)),
    decreases s.len() - i,
{
    if i < s.len() {
        assert(s.take(i + 1).drop_last() =~= s.take(i));
        lemma_parse_values_error_stays(s, i + 1);
    } else {
        assert(s.take(i) =~= s);
    }
}

/// The kind of measurement that an observation list holds.
#[derive(Clone, Copy, Debug, Eq, Hash, PartialEq, Structural)]
pub enum ObservationType {
    Attractor,
    FixedPoint,
    TimeSeries,
    Unspecified,
}

/// The name of an observation kind, as it appears in a summary.
pub open spec fn observation_type_text(t: ObservationType) -> Seq<char> {
    match t {
        ObservationType::Attractor => "attractor"@,
        ObservationType::FixedPoint => "fixed-point"@,
        ObservationType::TimeSeries => "time-series"@,
        ObservationType::Unspecified => "unspecified"@,
    }
}

impl ObservationType {
    /// The name of this kind: `attractor`, `fixed-point`, `time-series` or `unspecified`.
    pub fn to_string(&self) -> (r: String)
        ensures
            r@ == observation_type_text(*self),
    {
        match self {
            ObservationType::Attractor => String::from_str("attractor"),
            ObservationType::FixedPoint => String::from_str("fixed-point"),
            ObservationType::TimeSeries => String::from_str("time-series"),
            ObservationType::Unspecified => String::from_str("unspecified"),
        }
    }
}

/// An ordered list of observations over named variables, with the kind of the data. The
/// order matters for time series.
#[derive(Clone, Debug, Eq, Hash, PartialEq)]
pub struct ObservationList {
    pub observations: Vec<Observation>,
    pub var_names: Vec<String>,
    pub data_type: ObservationType,
}

/// The variable names separated by `, `.
pub open spec fn names_text(names: Seq<Seq<char>>) -> Seq<char>
    decreases names.len(),
{
    if names.len() == 0 {
        Seq::empty()
    } else if names.len() == 1 {
        names[0]
    } else {
        names_text(names.drop_last()) + ", "@ + names.last()
    }
}

/// One line `> VALUES\n` per observation.
pub open spec fn observation_lines_text(obs: Seq<Seq<VarValue>>) -> Seq<char>
    decreases obs.len(),
{
    if obs.len() == 0 {
        Seq::empty()
    } else {
        observation_lines_text(obs.drop_last()) + "> "@ + values_text(obs.last()) + seq!['\n']
    }
}

/// The values of each observation of a list.
pub open spec fn observations_values(obs: Seq<Observation>) -> Seq<Seq<VarValue>> {
    obs.map_values(|o: Observation| o.values@)
}

/// `N KIND observations with vars [A, B]: \n` followed by one line per observation.
pub open spec fn observation_list_text(l: ObservationList) -> Seq<char> {
    decimal_text(l.observations@.len()) + seq![' '] + observation_type_text(l.data_type)
        + " observations with vars ["@ + names_text(l.var_names.deep_view()) + "]: \n"@
        + observation_lines_text(observations_values(l.observations@))
}

impl ObservationList {
    /// A list of the given observations; their lengths are not checked here.
    pub fn new(
        observations: Vec<Observation>,
        var_names: Vec<String>,
        data_type: ObservationType,
    ) -> (r: Self)
        ensures
            r.observations@ == observations@,
            r.var_names@ == var_names@,
            r.data_type == data_type,
    {
        Self { observations, var_names, data_type }
    }

    /// A summary of the list: its size, kind and variables, then one line per observation.
    /// The list must name at least one variable.
    pub fn to_string(&self) -> (r: String)
        requires
            self.var_names@.len() > 0,
        ensures
            r@ == observation_list_text(*self),
    {
        let ghost names = self.var_names.deep_view();
        let mut s = String::new();
        push_decimal(&mut s, self.observations.len());
        push_char(&mut s, ' ');
        let kind = self.data_type.to_string();
        push_str(&mut s, kind.as_str());
        push_str(&mut s, " observations with vars [");
        let ghost head = s@;
        push_str(&mut s, self.var_names[0].as_str());
        proof {
            assert(names.take(1) =~= seq![names[0]]);
        }
        let mut i: usize = 1;
        while i < self.var_names.len()
            invariant
                1 <= i <= self.var_names@.len(),
                names == self.var_names.deep_view(),
                s@ == head + names_text(names.take(i as int)),
            decreases self.var_names@.len() - i,
        {
            push_str(&mut s, ", ");
            push_str(&mut s, self.var_names[i].as_str());
            proof {
                assert(names.take(i + 1).drop_last() =~= names.take(i as int));
            }
            i = i + 1;
        }
        proof {
            assert(names.take(names.len() as int) =~= names);
        }
        push_str(&mut s, "]: \n");
        let ghost obs = observations_values(self.observations@);
        let ghost mid = s@;
        let mut j: usize = 0;
        while j < self.observations.len()
            invariant
                j <= self.observations@.len(),
                obs == observations_values(self.observations@),
                s@ == mid + observation_lines_text(obs.take(j as int)),
            decreases self.observations@.len() - j,
        {
            push_str(&mut s, "> ");
            let line = self.observations[j].to_string();
            push_str(&mut s, line.as_str());
            push_char(&mut s, '\n');
            proof {
                assert(obs.take(j + 1).drop_last() =~= obs.take(j as int));
            }
            j = j + 1;
        }
        proof {
            assert(obs.take(obs.len() as int) =~= obs);
        }
        s
    }
}

} // verus!
