//! Reading a data set of observations: the variable names, the kind of the data, and the
//! observations themselves, each given as text.

use vstd::prelude::*;
use vstd::string::*;
use crate::text::{push_char, push_str, str_eq};
use crate::observations::{
    Observation, ObservationList, ObservationType, VarValue, observation_from_text,
    observations_values, values_text,
};

verus! {

/// Whether `char::is_alphanumeric` holds of a character (Unicode letters and numbers).
pub uninterp spec fn alphanumeric(c: char) -> bool;

/// White space as `char::is_whitespace` defines it: the characters with the Unicode
/// White_Space property.
pub open spec fn whitespace(c: char) -> bool {
    let u = c as u32;
    (0x9 <= u <= 0xd) || u == 0x20 || u == 0x85 || u == 0xa0 || u == 0x1680 || (0x2000 <= u
        <= 0x200a) || u == 0x2028 || u == 0x2029 || u == 0x202f || u == 0x205f || u == 0x3000
}

/// Relies on `char::is_alphanumeric`.
#[verifier::external_body]
fn is_alphanumeric(c: char) -> (r: bool)
    ensures
        r == alphanumeric(c),
{
    c.is_alphanumeric()
}

/// Whether a character is white space.
pub fn is_whitespace(c: char) -> (r: bool)
    ensures
        r == whitespace(c),
{
    let u = c as u32;
    (0x9 <= u && u <= 0xd) || u == 0x20 || u == 0x85 || u == 0xa0 || u == 0x1680 || (0x2000 <= u
        && u <= 0x200a) || u == 0x2028 || u == 0x2029 || u == 0x202f || u == 0x205f || u == 0x3000
}

/// A character that may appear in a variable name.
pub open spec fn valid_in_name(c: char) -> bool {
    alphanumeric(c) || c == '_'
}

/// Whether a character may appear in a variable name: alphanumeric or `_`.
pub fn is_valid_in_name(c: char) -> (r: bool)
    ensures
        r == valid_in_name(c),
{
    is_alphanumeric(c) || c == '_'
}

/// The state of a scan over a line of variable names: the names finished so far, the name
/// being read, whether a name is being read, and whether a name was read since the last
/// delimiter.
pub type NameScan = (Seq<Seq<char>>, Seq<char>, bool, bool);

/// The finished names, with the one being read.
pub open spec fn scan_names(st: NameScan) -> Seq<Seq<char>> {
    if st.2 {
        st.0.push(st.1)
    } else {
        st.0
    }
}

/// One step of the scan over variable names.
pub open spec fn name_scan_step(st: NameScan, c: char) -> Result<NameScan, Seq<char>> {
    if valid_in_name(c) {
        if st.2 {
            Ok((st.0, st.1.push(c), true, true))
        } else if st.3 {
            Err("Variable name can't contain spaces."@)
        } else {
            Ok((st.0, seq![c], true, true))
        }
    } else if whitespace(c) {
        Ok((scan_names(st), Seq::empty(), false, st.3))
    } else if c == '|' {
        if !st.3 {
            Err("Variable name can't be empty."@)
        } else {
            Ok((scan_names(st), Seq::empty(), false, false))
        }
    } else {
        Err("Unexpected char '"@ + seq![c] + "' in variable name."@)
    }
}

/// The scan over a whole line of variable names, stopping at the first error.
pub open spec fn name_scan(s: Seq<char>) -> Result<NameScan, Seq<char>>
    decreases s.len(),
{
    if s.len() == 0 {
        Ok((Seq::empty(), Seq::empty(), false, false))
    } else {
        match name_scan(s.drop_last()) {
            Err(e) => Err(e),
            Ok(st) => name_scan_step(st, s.last()),
        }
    }
}

/// The variable names given by a line of names delimited by `|`, or the error message.
pub open spec fn var_names_from_text(s: Seq<char>) -> Result<Seq<Seq<char>>, Seq<char>> {
    match name_scan(s) {
        Err(e) => Err(e),
        Ok(st) => if scan_names(st).len() == 0 {
            Err("No variable names provided."@)
        } else {
            Ok(scan_names(st))
        },
    }
}

proof fn lemma_name_scan_error_stays(s: Seq<char>, i: int)
    requires
        0 < i <= s.len(),
        name_scan(s.take(i)) is Err,
    ensures
        name_scan(s) == name_scan(s.take(i)),
    decreases s.len() - i,
{
    if i < s.len() {
        assert(s.take(i + 1).drop_last() =~= s.take(i));
        lemma_name_scan_error_stays(s, i + 1);
    } else {
        assert(s.take(i) =~= s);
    }
}

/// Reads the variable names from one line: names made of alphanumeric characters and `_`,
/// delimited by `|`, with white space around them.
pub fn parse_var_names(var_string: String) -> (r: Result<Vec<String>, String>)
    ensures
        match var_names_from_text(var_string@) {
            Ok(names) => r matches Ok(v) && v.deep_view() == names,
            Err(msg) => r matches Err(e) && e@ == msg,
        },
{
    let s = var_string.as_str();
    let n = s.unicode_len();
    let mut done: Vec<String> = Vec::new();
    let mut cur = String::new();
    let mut in_name = false;
    let mut parsed = false;
    let mut i: usize = 0;
    assert(s@.take(0) =~= Seq::<char>::empty());
    assert(done.deep_view() =~= Seq::<Seq<char>>::empty());
    while i < n
        invariant
            n == s@.len(),
            s@ == var_string@,
            i <= n,
            name_scan(s@.take(i as int)) == Ok::<NameScan, Seq<char>>(
                (done.deep_view(), cur@, in_name, parsed),
            ),
        decreases n - i,
    {
        let c = s.get_char(i);
        assert(s@.take(i + 1).drop_last() =~= s@.take(i as int));
        assert(s@.take(i + 1).last() == c);
        if is_valid_in_name(c) {
            if in_name {
                push_char(&mut cur, c);
            } else if parsed {
                proof {
                    lemma_name_scan_error_stays(s@, i + 1);
                }
                return Err(String::from_str("Variable name can't contain spaces."));
            } else {
                cur = String::new();
                push_char(&mut cur, c);
                in_name = true;
                parsed = true;
            }
        } else {
            let delimiter = c == '|';
            if !is_whitespace(c) && !delimiter {
                let mut msg = String::new();
                push_str(&mut msg, "Unexpected char '");
                push_char(&mut msg, c);
                push_str(&mut msg, "' in variable name.");
                proof {
                    lemma_name_scan_error_stays(s@, i + 1);
                }
                return Err(msg);
            }
            if delimiter && !is_whitespace(c) && !parsed {
                proof {
                    lemma_name_scan_error_stays(s@, i + 1);
                }
                return Err(String::from_str("Variable name can't be empty."));
            }
            if in_name {
                let ghost before = done.deep_view();
                done.push(cur);
                assert(done.deep_view() =~= before.push(cur@));
                cur = String::new();
            }
            in_name = false;
            if delimiter && !is_whitespace(c) {
                parsed = false;
            }
        }
        i = i + 1;
    }
    assert(s@.take(n as int) =~= s@);
    if in_name {
        let ghost before = done.deep_view();
        done.push(cur);
        assert(done.deep_view() =~= before.push(cur@));
    }
    if done.len() == 0 {
        return Err(String::from_str("No variable names provided."));
    }
    Ok(done)
}

/// The observations read from their texts, stopping at the first that fails.
pub open spec fn parse_all_observations(ts: Seq<Seq<char>>) -> Result<Seq<Seq<VarValue>>, Seq<char>>
    decreases ts.len(),
{
    if ts.len() == 0 {
        Ok(Seq::empty())
    } else {
        match parse_all_observations(ts.drop_last()) {
            Err(e) => Err(e),
            Ok(vs) => match observation_from_text(ts.last()) {
                Err(e) => Err(e),
                Ok(v) => Ok(vs.push(v)),
            },
        }
    }
}

/// The outcome of reading a non-empty list of observations.
pub open spec fn observations_from_texts(ts: Seq<Seq<char>>) -> Result<
    Seq<Seq<VarValue>>,
    Seq<char>,
> {
    match parse_all_observations(ts) {
        Err(e) => Err(e),
        Ok(vs) => if vs.len() == 0 {
            Err("No observations provided"@)
        } else {
            Ok(vs)
        },
    }
}

proof fn lemma_parse_all_error_stays(ts: Seq<Seq<char>>, i: int)
    requires
        0 < i <= ts.len(),
        parse_all_observations(ts.take(i)) is Err,
    ensures
        parse_all_observations(ts) == parse_all_observations(ts.take(i)),
    decreases ts.len() - i,
{
    if i < ts.len() {
        assert(ts.take(i + 1).drop_last() =~= ts.take(i));
        lemma_parse_all_error_stays(ts, i + 1);
    } else {
        assert(ts.take(i) =~= ts);
    }
}

/// Reads each observation from its text. Fails with the first error, or when there are no
/// observations.
pub fn parse_observations(observation_strings: Vec<String>) -> (r: Result<Vec<Observation>, String>)
    ensures
        match observations_from_texts(observation_strings.deep_view()) {
            Ok(vs) => r matches Ok(os) && observations_values(os@) == vs,
            Err(msg) => r matches Err(e) && e@ == msg,
        },
{
    let ghost ts = observation_strings.deep_view();
    let mut observations: Vec<Observation> = Vec::new();
    let mut i: usize = 0;
    assert(ts.take(0) =~= Seq::<Seq<char>>::empty());
    assert(observations_values(observations@) =~= Seq::<Seq<VarValue>>::empty());
    while i < observation_strings.len()
        invariant
            ts == observation_strings.deep_view(),
            i <= ts.len(),
            parse_all_observations(ts.take(i as int)) == Ok::<Seq<Seq<VarValue>>, Seq<char>>(
                observations_values(observations@),
            ),
        decreases ts.len() - i,
    {
        assert(ts.take(i + 1).drop_last() =~= ts.take(i as int));
        assert(ts.take(i + 1).last() == observation_strings[i as int]@);
        match Observation::try_from_str(observation_strings[i].clone()) {
            Ok(o) => {
                let ghost before = observations@;
                observations.push(o);
                assert(observations_values(observations@) =~= observations_values(before).push(
                    o.values@,
                ));
            },
            Err(e) => {
                proof {
                    lemma_parse_all_error_stays(ts, i + 1);
                }
                return Err(e);
            },
        }
        i = i + 1;
    }
    assert(ts.take(ts.len() as int) =~= ts);
    if observations.len() == 0 {
        return Err(String::from_str("No observations provided"));
    }
    Ok(observations)
}

/// The kind of data named by a text, or the error message.
pub open spec fn observation_type_from_text(s: Seq<char>) -> Result<ObservationType, Seq<char>> {
    if s == "Attractor"@ {
        Ok(ObservationType::Attractor)
    } else if s == "FixedPoint"@ {
        Ok(ObservationType::FixedPoint)
    } else if s == "TimeSeries"@ {
        Ok(ObservationType::TimeSeries)
    } else if s == "Unspecified"@ {
        Ok(ObservationType::Unspecified)
    } else {
        Err("Invalid data type \""@ + s + "\""@)
    }
}

/// Reads the kind of data: `Attractor`, `FixedPoint`, `TimeSeries` or `Unspecified`.
pub fn parse_observ_type(type_string: String) -> (r: Result<ObservationType, String>)
    ensures
        match observation_type_from_text(type_string@) {
            Ok(t) => r == Ok::<ObservationType, String>(t),
            Err(msg) => r matches Err(e) && e@ == msg,
        },
{
    let s = type_string.as_str();
    if str_eq(s, "Attractor") {
        Ok(ObservationType::Attractor)
    } else if str_eq(s, "FixedPoint") {
        Ok(ObservationType::FixedPoint)
    } else if str_eq(s, "TimeSeries") {
        Ok(ObservationType::TimeSeries)
    } else if str_eq(s, "Unspecified") {
        Ok(ObservationType::Unspecified)
    } else {
        let mut msg = String::new();
        push_str(&mut msg, "Invalid data type \"");
        push_str(&mut msg, s);
        push_str(&mut msg, "\"");
        Err(msg)
    }
}

/// The first observation whose length differs from `n`, if any.
pub open spec fn first_wrong_length(vs: Seq<Seq<VarValue>>, n: nat) -> Option<int>
    decreases vs.len(),
{
    if vs.len() == 0 {
        None
    } else {
        match first_wrong_length(vs.drop_last(), n) {
            Some(j) => Some(j),
            None => if vs.last().len() != n {
                Some(vs.len() - 1)
            } else {
                None
            },
        }
    }
}

proof fn lemma_first_wrong_length_stays(vs: Seq<Seq<VarValue>>, n: nat, i: int)
    requires
        0 < i <= vs.len(),
        first_wrong_length(vs.take(i), n) is Some,
    ensures
        first_wrong_length(vs, n) == first_wrong_length(vs.take(i), n),
    decreases vs.len() - i,
{
    if i < vs.len() {
        assert(vs.take(i + 1).drop_last() =~= vs.take(i));
        lemma_first_wrong_length_stays(vs, n, i + 1);
    } else {
        assert(vs.take(i) =~= vs);
    }
}

/// The index of the first observation that does not have `num_vars` values, if any.
fn first_wrong_length_index(observations: &Vec<Observation>, num_vars: usize) -> (r: Option<
    usize,
>)
    ensures
        match first_wrong_length(observations_values(observations@), num_vars as nat) {
            Some(j) => r == Some(j as usize) && 0 <= j < observations@.len(),
            None => r is None,
        },
{
    let ghost vs = observations_values(observations@);
    let mut i: usize = 0;
    assert(vs.take(0) =~= Seq::<Seq<VarValue>>::empty());
    while i < observations.len()
        invariant
            vs == observations_values(observations@),
            i <= observations@.len(),
            first_wrong_length(vs.take(i as int), num_vars as nat) is None,
        decreases observations@.len() - i,
    {
        assert(vs.take(i + 1).drop_last() =~= vs.take(i as int));
        assert(vs[i as int] == observations[i as int].values@);
        if observations[i].values.len() != num_vars {
            proof {
                assert(vs.take(i + 1).last() == vs[i as int]);
                assert(first_wrong_length(vs.take(i + 1), num_vars as nat) == Some(i as int));
                lemma_first_wrong_length_stays(vs, num_vars as nat, i + 1);
            }
            return Some(i);
        }
        i = i + 1;
    }
    assert(vs.take(vs.len() as int) =~= vs);
    None
}

/// The message for an observation of the wrong length.
pub open spec fn invalid_length_message(v: Seq<VarValue>) -> Seq<char> {
    "Observation '"@ + values_text(v) + "' has invalid length."@
}

/// The outcome of combining the three parts of a data set: the observations, the variable
/// names and the kind of data, in this order of checking; then every observation must have
/// one value per variable.
pub open spec fn observation_list_outcome(
    obs: Seq<Seq<char>>,
    vars: Seq<char>,
    kind: Seq<char>,
) -> Result<(Seq<Seq<VarValue>>, Seq<Seq<char>>, ObservationType), Seq<char>> {
    match observations_from_texts(obs) {
        Err(e) => Err(e),
        Ok(vs) => match var_names_from_text(vars) {
            Err(e) => Err(e),
            Ok(names) => match observation_type_from_text(kind) {
                Err(e) => Err(e),
                Ok(t) => match first_wrong_length(vs, names.len()) {
                    Some(j) => Err(invalid_length_message(vs[j])),
                    None => Ok((vs, names, t)),
                },
            },
        },
    }
}

/// Builds a checked observation list from the texts of its observations, of its variable
/// names and of its kind.
pub fn generate_observation_list(
    raw_observation_strs: Vec<String>,
    raw_vars_str: String,
    raw_type_str: String,
) -> (r: Result<ObservationList, String>)
    ensures
        match observation_list_outcome(
            raw_observation_strs.deep_view(),
            raw_vars_str@,
            raw_type_str@,
        ) {
            Ok((vs, names, t)) => r matches Ok(l) && observations_values(l.observations@) == vs
                && l.var_names.deep_view() == names && l.data_type == t,
            Err(msg) => r matches Err(e) && e@ == msg,
        },
{
    let observations = match parse_observations(raw_observation_strs) {
        Ok(o) => o,
        Err(e) => {
            return Err(e);
        },
    };
    let var_names = match parse_var_names(raw_vars_str) {
        Ok(v) => v,
        Err(e) => {
            return Err(e);
        },
    };
    let observation_type = match parse_observ_type(raw_type_str) {
        Ok(t) => t,
        Err(e) => {
            return Err(e);
        },
    };
    let ghost vs = observations_values(observations@);
    let num_vars = var_names.len();
    assert(var_names.deep_view().len() == num_vars);
    if let Some(i) = first_wrong_length_index(&observations, num_vars) {
        let mut msg = String::new();
        push_str(&mut msg, "Observation '");
        let text = observations[i].to_string();
        push_str(&mut msg, text.as_str());
        push_str(&mut msg, "' has invalid length.");
        assert(vs[i as int] == observations[i as int].values@);
        return Err(msg);
    }
    Ok(ObservationList::new(observations, var_names, observation_type))
}

/// A line without the `\r` of a `\r\n` ending.
pub open spec fn strip_cr(line: Seq<char>) -> Seq<char> {
    if line.len() > 0 && line.last() == '\r' {
        line.drop_last()
    } else {
        line
    }
}

/// The lines ended so far in a text, and the line being read.
pub open spec fn line_scan(s: Seq<char>) -> (Seq<Seq<char>>, Seq<char>)
    decreases s.len(),
{
    if s.len() == 0 {
        (Seq::empty(), Seq::empty())
    } else {
        let (done, cur) = line_scan(s.drop_last());
        if s.last() == '\n' {
            (done.push(strip_cr(cur)), Seq::empty())
        } else {
            (done, cur.push(s.last()))
        }
    }
}

/// The lines of a text as `str::lines` documents them: split at `\n` or `\r\n`, without
/// the line endings; the final line ending is optional, and a `\r` not followed by `\n`
/// stays in its line.
pub open spec fn lines_of(s: Seq<char>) -> Seq<Seq<char>> {
    let (done, cur) = line_scan(s);
    if cur.len() > 0 {
        done.push(cur)
    } else {
        done
    }
}

/// A text without its leading white space.
pub open spec fn trim_start(s: Seq<char>) -> Seq<char>
    decreases s.len(),
{
    if s.len() > 0 && whitespace(s[0]) {
        trim_start(s.drop_first())
    } else {
        s
    }
}

/// A text without its trailing white space.
pub open spec fn trim_end(s: Seq<char>) -> Seq<char>
    decreases s.len(),
{
    if s.len() > 0 && whitespace(s.last()) {
        trim_end(s.drop_last())
    } else {
        s
    }
}

/// A text without its leading and trailing white space, as `str::trim` leaves it.
pub open spec fn trimmed(s: Seq<char>) -> Seq<char> {
    trim_end(trim_start(s))
}

/// Dropping leading white space one character at a time.
proof fn lemma_trim_start_skip(s: Seq<char>, i: int)
    requires
        0 <= i <= s.len(),
        forall|k: int| 0 <= k < i ==> whitespace(#[trigger] s[k]),
    ensures
        trim_start(s) == trim_start(s.subrange(i, s.len() as int)),
    decreases i,
{
    if i > 0 {
        assert(s.drop_first().subrange(i - 1, s.drop_first().len() as int) =~= s.subrange(
            i,
            s.len() as int,
        ));
        assert forall|k: int| 0 <= k < i - 1 implies whitespace(#[trigger] s.drop_first()[k]) by {
            assert(s.drop_first()[k] == s[k + 1]);
        }
        lemma_trim_start_skip(s.drop_first(), i - 1);
    } else {
        assert(s.subrange(0, s.len() as int) =~= s);
    }
}

/// Dropping trailing white space one character at a time.
proof fn lemma_trim_end_skip(s: Seq<char>, j: int)
    requires
        0 <= j <= s.len(),
        forall|k: int| j <= k < s.len() ==> whitespace(#[trigger] s[k]),
    ensures
        trim_end(s) == trim_end(s.subrange(0, j)),
    decreases s.len() - j,
{
    if j < s.len() {
        assert(s.drop_last().subrange(0, j) =~= s.subrange(0, j));
        assert forall|k: int| j <= k < s.drop_last().len() implies whitespace(#[trigger] s.drop_last()[k]) by {
            assert(s.drop_last()[k] == s[k]);
        }
        lemma_trim_end_skip(s.drop_last(), j);
    } else {
        assert(s.subrange(0, j) =~= s);
    }
}

/// The lines of a text, without their line endings.
pub fn split_lines(s: &str) -> (r: Vec<String>)
    ensures
        r.deep_view() == lines_of(s@),
{
    let n = s.unicode_len();
    let mut done: Vec<String> = Vec::new();
    let mut cur = String::new();
    let mut i: usize = 0;
    assert(s@.take(0) =~= Seq::<char>::empty());
    assert(done.deep_view() =~= Seq::<Seq<char>>::empty());
    while i < n
        invariant
            n == s@.len(),
            i <= n,
            line_scan(s@.take(i as int)) == (done.deep_view(), cur@),
        decreases n - i,
    {
        let c = s.get_char(i);
        assert(s@.take(i + 1).drop_last() =~= s@.take(i as int));
        assert(s@.take(i + 1).last() == c);
        if c == '\n' {
            let line = strip_cr_string(&cur);
            let ghost before = done.deep_view();
            done.push(line);
            assert(done.deep_view() =~= before.push(strip_cr(cur@)));
            cur = String::new();
        } else {
            push_char(&mut cur, c);
        }
        i = i + 1;
    }
    assert(s@.take(n as int) =~= s@);
    if cur.unicode_len() > 0 {
        let ghost before = done.deep_view();
        done.push(cur);
        assert(done.deep_view() =~= before.push(cur@));
    }
    done
}

/// A copy of a line without the `\r` of a `\r\n` ending.
fn strip_cr_string(line: &String) -> (r: String)
    ensures
        r@ == strip_cr(line@),
{
    let t = line.as_str();
    let n = t.unicode_len();
    if n > 0 && t.get_char(n - 1) == '\r' {
        String::from_str(t.substring_char(0, n - 1))
    } else {
        String::from_str(t)
    }
}

/// The text without its leading and trailing white space.
pub fn trim(s: &str) -> (r: String)
    ensures
        r@ == trimmed(s@),
{
    let n = s.unicode_len();
    let mut i: usize = 0;
    while i < n && is_whitespace(s.get_char(i))
        invariant
            n == s@.len(),
            i <= n,
            forall|k: int| 0 <= k < i ==> whitespace(#[trigger] s@[k]),
        decreases n - i,
    {
        i = i + 1;
    }
    proof {
        lemma_trim_start_skip(s@, i as int);
    }
    let ghost rest = s@.subrange(i as int, n as int);
    let mut j: usize = n;
    while j > i && is_whitespace(s.get_char(j - 1))
        invariant
            n == s@.len(),
            i <= j <= n,
            forall|k: int| j <= k < n ==> whitespace(#[trigger] s@[k]),
        decreases j,
    {
        j = j - 1;
    }
    proof {
        assert(trim_start(rest) == rest) by {
            if rest.len() > 0 {
                assert(rest[0] == s@[i as int]);
            }
        }
        assert forall|k: int| j - i <= k < rest.len() implies whitespace(#[trigger] rest[k]) by {
            assert(rest[k] == s@[k + i]);
        }
        lemma_trim_end_skip(rest, j - i);
        let kept = rest.subrange(0, j - i);
        assert(kept =~= s@.subrange(i as int, j as int));
        assert(trim_end(kept) == kept) by {
            if kept.len() > 0 {
                assert(kept.last() == s@[j - 1]);
            }
        }
    }
    String::from_str(s.substring_char(i, j))
}

/// The lines that hold an observation: neither empty nor a comment starting with `#`.
pub open spec fn observation_lines(lines: Seq<Seq<char>>) -> Seq<Seq<char>>
    decreases lines.len(),
{
    if lines.len() == 0 {
        Seq::empty()
    } else {
        let front = observation_lines(lines.drop_last());
        let l = lines.last();
        if l.len() == 0 || l[0] == '#' {
            front
        } else {
            front.push(l)
        }
    }
}

/// The parts of a data file: its trimmed lines give the variable names (the first line),
/// the kind of data (the second) and the observations (the rest, but for empty lines and
/// comments).
pub open spec fn raw_parts(content: Seq<char>) -> (Seq<Seq<char>>, Seq<char>, Seq<char>) {
    let ts = lines_of(content).map_values(|l: Seq<char>| trimmed(l));
    (
        if ts.len() > 2 {
            observation_lines(ts.skip(2))
        } else {
            Seq::empty()
        },
        if ts.len() > 0 {
            ts[0]
        } else {
            Seq::empty()
        },
        if ts.len() > 1 {
            ts[1]
        } else {
            Seq::empty()
        },
    )
}

/// Splits the text of a data file into the observation lines, the line of variable names and
/// the line with the kind of data, each trimmed; empty lines and lines starting with `#`
/// among the observations are left out. Nothing is checked here.
pub fn split_raw_observations(data_file_string: &str) -> (r: (Vec<String>, String, String))
    ensures
        r.0.deep_view() == raw_parts(data_file_string@).0,
        r.1@ == raw_parts(data_file_string@).1,
        r.2@ == raw_parts(data_file_string@).2,
{
    let lines = split_lines(data_file_string);
    let ghost ts = lines_of(data_file_string@).map_values(|l: Seq<char>| trimmed(l));
    let ghost rest = ts.skip(2);
    let mut observation_strings: Vec<String> = Vec::new();
    let mut var_name_string = String::new();
    let mut data_type_string = String::new();
    let mut i: usize = 0;
    assert(rest.take(0) =~= Seq::<Seq<char>>::empty());
    assert(observation_strings.deep_view() =~= Seq::<Seq<char>>::empty());
    while i < lines.len()
        invariant
            lines.deep_view() == lines_of(data_file_string@),
            ts == lines_of(data_file_string@).map_values(|l: Seq<char>| trimmed(l)),
            rest == ts.skip(2),
            i <= ts.len(),
            i <= 1 ==> observation_strings.deep_view().len() == 0,
            i > 2 ==> observation_strings.deep_view() == observation_lines(
                rest.take(i - 2),
            ),
            i == 2 ==> observation_strings.deep_view() == observation_lines(rest.take(0)),
            var_name_string@ == if i > 0 {
                ts[0]
            } else {
                Seq::empty()
            },
            data_type_string@ == if i > 1 {
                ts[1]
            } else {
                Seq::empty()
            },
        decreases ts.len() - i,
    {
        let trimmed_line = trim(lines[i].as_str());
        assert(trimmed_line@ == ts[i as int]);
        if i == 0 {
            var_name_string = trimmed_line;
        } else if i == 1 {
            data_type_string = trimmed_line;
            assert(observation_strings.deep_view() =~= observation_lines(rest.take(0)));
        } else {
            let t = trimmed_line.as_str();
            let keep = t.unicode_len() > 0 && t.get_char(0) != '#';
            proof {
                assert(rest.take(i - 1).drop_last() =~= rest.take(i - 2));
                assert(rest.take(i - 1).last() == ts[i as int]);
                if i == 2 {
                    assert(rest.take(0) =~= Seq::<Seq<char>>::empty());
                }
            }
            if keep {
                let ghost before = observation_strings.deep_view();
                observation_strings.push(trimmed_line);
                assert(observation_strings.deep_view() =~= before.push(ts[i as int]));
            }
        }
        i = i + 1;
    }
    proof {
        if ts.len() > 2 {
            assert(rest.take(ts.len() - 2) =~= rest);
        } else {
            assert(observation_strings.deep_view() =~= Seq::<Seq<char>>::empty());
        }
    }
    (observation_strings, var_name_string, data_type_string)
}

/// Reads an observation list from the text of a data file: the variable names delimited by
/// `|` on the first line, the kind of data on the second, then one observation per line.
pub fn observations_from_string(data_file_string: &str) -> (r: Result<ObservationList, String>)
    ensures
        match observation_list_outcome(
            raw_parts(data_file_string@).0,
            raw_parts(data_file_string@).1,
            raw_parts(data_file_string@).2,
        ) {
            Ok((vs, names, t)) => r matches Ok(l) && observations_values(l.observations@) == vs
                && l.var_names.deep_view() == names && l.data_type == t,
            Err(msg) => r matches Err(e) && e@ == msg,
        },
{
    let (observation_strings, var_name_string, data_type_string) = split_raw_observations(
        data_file_string,
    );
    generate_observation_list(observation_strings, var_name_string, data_type_string)
}

} // verus!
