use vstd::prelude::*;

use crate::text::{char_vecs_view, chars_equal_from, push_chars, split_words, string_of, words};

verus! {

/// The help text for `/analyze`.
pub fn analyze_usage_hint() -> (hint: &'static str)
    ensures
        hint@ == "Reply to a voice message or audio file with <code>/analyze</code>.\nDefault sections: <code>+pitch +hnr +spectral</code>\nExtra features: <code>+formants +energy +graph +spectrum</code>\nClip syntax: <code>+from 20s +to 1m40s</code> or <code>+from 20s +dur 20s</code>\nExample: <code>/analyze +graph +spectrum +from 20s +dur 20s -spectral</code>"@,
{
    "Reply to a voice message or audio file with <code>/analyze</code>.\nDefault sections: <code>+pitch +hnr +spectral</code>\nExtra features: <code>+formants +energy +graph +spectrum</code>\nClip syntax: <code>+from 20s +to 1m40s</code> or <code>+from 20s +dur 20s</code>\nExample: <code>/analyze +graph +spectrum +from 20s +dur 20s -spectral</code>"
}

/// The unit after a number in a time value.
#[derive(Debug, Clone, Copy, PartialEq, Eq)]
pub enum TimeUnit {
    Hours,
    Minutes,
    Seconds,
    Milliseconds,
}

/// One `<number><unit>` part of a time value, such as `1m` in `1m40s`; the
/// number is written with ASCII digits and at most one `.`.
#[derive(Debug)]
pub struct TimeTerm {
    pub number: String,
    pub unit: TimeUnit,
}

/// A time value such as `20s` or `1m40s`: the sum of its terms.
#[derive(Debug)]
pub struct TimeValue {
    pub terms: Vec<TimeTerm>,
}

/// Where a clip ends.
#[derive(Debug)]
pub enum ClipEnd {
    /// At this time from the start of the audio.
    To(TimeValue),
    /// This long after the clip's start.
    Duration(TimeValue),
}

/// A clip of the audio to analyse.
#[derive(Debug)]
pub struct ClipSpec {
    pub from: TimeValue,
    pub to: ClipEnd,
}

/// The sections of a report that `/analyze` produces, and an optional clip.
#[derive(Debug)]
pub struct AnalyzeOptions {
    pub pitch: bool,
    pub hnr: bool,
    pub spectral: bool,
    pub spectrum: bool,
    pub energy: bool,
    pub formants: bool,
    pub graph: bool,
    pub clip: Option<ClipSpec>,
}

impl Default for AnalyzeOptions {
    /// Pitch, HNR and spectral sections; no extras; no clip.
    fn default() -> (o: Self)
        ensures
            o.pitch && o.hnr && o.spectral,
            !o.spectrum && !o.energy && !o.formants && !o.graph,
            o.clip is None,
    {
        AnalyzeOptions {
            pitch: true,
            hnr: true,
            spectral: true,
            spectrum: false,
            energy: false,
            formants: false,
            graph: false,
            clip: None,
        }
    }
}

/// A time term as text and unit.
pub type TermView = (Seq<char>, TimeUnit);

impl TimeValue {
    pub open spec fn view_terms(&self) -> Seq<TermView> {
        self.terms@.map_values(|t: TimeTerm| (t.number@, t.unit))
    }
}

/// Whether a character may be part of a number.
pub open spec fn is_number_char(c: char) -> bool {
    ('0' <= c <= '9') || c == '.'
}

/// Length of the longest prefix of number characters.
pub open spec fn number_prefix_len(s: Seq<char>) -> nat
    decreases s.len(),
{
    if s.len() == 0 || !is_number_char(s[0]) {
        0
    } else {
        1 + number_prefix_len(s.skip(1))
    }
}

/// Number characters form a number when they hold a digit and at most one
/// `.` (`1`, `1.5`, `1.` and `.5` are numbers, `.` and `1.2.3` are not).
pub open spec fn valid_number(s: Seq<char>) -> bool {
    &&& exists|i: int| 0 <= i < s.len() && '0' <= #[trigger] s[i] <= '9'
    &&& forall|i: int, j: int|
        #![trigger s[i], s[j]]
        0 <= i < j < s.len() && s[i] == '.' ==> s[j] != '.'
}

/// The terms of a time value, read from the front: a number, then `ms`,
/// `h`, `m` or `s`, repeated to the end of the text.
pub open spec fn parse_terms(s: Seq<char>) -> Option<Seq<TermView>>
    decreases s.len(),
{
    if s.len() == 0 {
        Some(Seq::empty())
    } else {
        let n = number_prefix_len(s) as int;
        if n == 0 || n >= s.len() || !valid_number(s.take(n)) {
            None
        } else {
            let after = s.skip(n);
            let unit_len: int = if after.len() >= 2 && after[0] == 'm' && after[1] == 's' {
                2
            } else if after[0] == 'h' || after[0] == 'm' || after[0] == 's' {
                1
            } else {
                0
            };
            let unit = if unit_len == 2 {
                TimeUnit::Milliseconds
            } else if after[0] == 'h' {
                TimeUnit::Hours
            } else if after[0] == 'm' {
                TimeUnit::Minutes
            } else {
                TimeUnit::Seconds
            };
            if unit_len == 0 {
                None
            } else {
                match parse_terms(after.skip(unit_len)) {
                    Some(rest) => Some(seq![(s.take(n), unit)] + rest),
                    None => None,
                }
            }
        }
    }
}

/// A time value token: at least one term, nothing else.
pub open spec fn parse_time(token: Seq<char>) -> Option<Seq<TermView>> {
    if token.len() == 0 {
        None
    } else {
        parse_terms(token)
    }
}

/// A time value is greater than zero when one of its numbers has a digit
/// other than zero.
pub open spec fn time_is_positive(terms: Seq<TermView>) -> bool {
    exists|t: int, k: int|
        0 <= t < terms.len() && 0 <= k < terms[t].0.len() && '1' <= #[trigger] terms[t].0[k] <= '9'
}

} // verus!

verus! {

proof fn lemma_number_prefix_len(s: Seq<char>, k: int)
    requires
        0 <= k <= s.len(),
        forall|m: int| 0 <= m < k ==> is_number_char(#[trigger] s[m]),
        k == s.len() || !is_number_char(s[k]),
    ensures
        number_prefix_len(s) == k,
    decreases k,
{
    if k > 0 {
        let t = s.skip(1);
        assert forall|m: int| 0 <= m < k - 1 implies is_number_char(#[trigger] t[m]) by {
            assert(t[m] == s[m + 1]);
        }
        lemma_number_prefix_len(t, k - 1);
    }
}

fn valid_number_exec(t: &Vec<char>, start: usize, end: usize) -> (b: bool)
    requires
        start <= end <= t@.len(),
    ensures
        b == valid_number(t@.subrange(start as int, end as int)),
{
    let ghost s = t@.subrange(start as int, end as int);
    let mut seen_digit = false;
    let mut seen_dot = false;
    let mut k: usize = start;
    while k < end
        invariant
            start <= k <= end,
            end <= t@.len(),
            s == t@.subrange(start as int, end as int),
            seen_digit == exists|i: int| 0 <= i < k - start && '0' <= #[trigger] s[i] <= '9',
            seen_dot == exists|i: int| 0 <= i < k - start && #[trigger] s[i] == '.',
            forall|i: int, j: int|
                #![trigger s[i], s[j]]
                0 <= i < j < k - start && s[i] == '.' ==> s[j] != '.',
        decreases end - k,
    {
        let c = t[k];
        assert(s[k - start] == c);
        if c == '.' {
            if seen_dot {
                let ghost first = choose|i: int| 0 <= i < k - start && #[trigger] s[i] == '.';
                assert(s[first] == '.' && s[k - start] == '.');
                return false;
            }
            seen_dot = true;
        } else if '0' <= c && c <= '9' {
            seen_digit = true;
        }
        k += 1;
    }
    seen_digit
}

/// Reads a time value token such as `20s` or `1m40s`.
pub fn parse_time_value(token: &Vec<char>) -> (v: Option<TimeValue>)
    ensures
        match v {
            Some(value) => parse_time(token@) == Some(value.view_terms()),
            None => parse_time(token@) is None,
        },
{
    let len = token.len();
    if len == 0 {
        return None;
    }
    let mut terms: Vec<TimeTerm> = Vec::new();
    let mut pos: usize = 0;
    assert(token@.skip(0) =~= token@);
    while pos < len
        invariant
            len == token@.len(),
            pos <= len,
            parse_terms(token@) == match parse_terms(token@.skip(pos as int)) {
                Some(rest) => Some(terms@.map_values(|t: TimeTerm| (t.number@, t.unit)) + rest),
                None => None::<Seq<TermView>>,
            },
        decreases len - pos,
    {
        let ghost s = token@.skip(pos as int);
        let mut n: usize = 0;
        while pos + n < len && (('0' <= token[pos + n] && token[pos + n] <= '9') || token[pos + n]
            == '.')
            invariant
                pos + n <= len,
                len == token@.len(),
                s == token@.skip(pos as int),
                forall|m: int| 0 <= m < n ==> is_number_char(#[trigger] s[m]),
            decreases len - pos - n,
        {
            assert(s[n as int] == token@[pos + n]);
            n += 1;
        }
        proof {
            if pos + n < len {
                assert(s[n as int] == token@[pos + n]);
            }
            lemma_number_prefix_len(s, n as int);
            assert(s.take(n as int) =~= token@.subrange(pos as int, pos + n));
            assert(s.skip(n as int) =~= token@.skip(pos + n));
        }
        if n == 0 || pos + n >= len {
            return None;
        }
        if !valid_number_exec(token, pos, pos + n) {
            return None;
        }
        let at = pos + n;
        let c0 = token[at];
        let two_ms = at + 1 < len && c0 == 'm' && token[at + 1] == 's';
        let (unit, unit_len) = if two_ms {
            (TimeUnit::Milliseconds, 2usize)
        } else if c0 == 'h' {
            (TimeUnit::Hours, 1usize)
        } else if c0 == 'm' {
            (TimeUnit::Minutes, 1usize)
        } else if c0 == 's' {
            (TimeUnit::Seconds, 1usize)
        } else {
            return None;
        };
        let mut number_chars: Vec<char> = Vec::new();
        let mut k: usize = pos;
        while k < at
            invariant
                pos <= k <= at,
                at < len,
                len == token@.len(),
                number_chars@ == token@.subrange(pos as int, k as int),
            decreases at - k,
        {
            number_chars.push(token[k]);
            k += 1;
            assert(number_chars@ =~= token@.subrange(pos as int, k as int));
        }
        let number = string_of(&number_chars);
        let ghost before = terms@.map_values(|t: TimeTerm| (t.number@, t.unit));
        terms.push(TimeTerm { number, unit });
        proof {
            let after = s.skip(n as int);
            assert(after =~= token@.skip(at as int));
            assert(after[0] == c0);
            if two_ms {
                assert(after[1] == token@[at + 1]);
            }
            assert(after.skip(unit_len as int) =~= token@.skip(at + unit_len));
            assert(terms@.map_values(|t: TimeTerm| (t.number@, t.unit)) =~= before.push(
                (token@.subrange(pos as int, at as int), unit),
            ));
            match parse_terms(token@.skip(at + unit_len)) {
                Some(rest) => {
                    assert(before + (seq![(token@.subrange(pos as int, at as int), unit)] + rest)
                        =~= before.push((token@.subrange(pos as int, at as int), unit)) + rest);
                },
                None => {},
            }
        }
        pos = at + unit_len;
    }
    assert(token@.skip(len as int) =~= Seq::<char>::empty());
    assert(terms@.map_values(|t: TimeTerm| (t.number@, t.unit)) + Seq::<TermView>::empty()
        =~= terms@.map_values(|t: TimeTerm| (t.number@, t.unit)));
    Some(TimeValue { terms })
}

/// Whether a time value is greater than zero.
pub fn time_value_is_positive(value: &TimeValue) -> (b: bool)
    ensures
        b == time_is_positive(value.view_terms()),
{
    let ghost terms = value.view_terms();
    let mut t: usize = 0;
    while t < value.terms.len()
        invariant
            t <= value.terms@.len(),
            terms == value.view_terms(),
            forall|u: int, k: int|
                0 <= u < t && 0 <= k < terms[u].0.len() ==> !('1' <= #[trigger] terms[u].0[k]
                    <= '9'),
        decreases value.terms@.len() - t,
    {
        let chars = crate::text::chars_of(value.terms[t].number.as_str());
        assert(chars@ == terms[t as int].0);
        let mut k: usize = 0;
        while k < chars.len()
            invariant
                t < value.terms@.len(),
                terms == value.view_terms(),
                chars@ == terms[t as int].0,
                k <= chars@.len(),
                forall|m: int| 0 <= m < k ==> !('1' <= #[trigger] chars@[m] <= '9'),
            decreases chars@.len() - k,
        {
            if '1' <= chars[k] && chars[k] <= '9' {
                assert('1' <= terms[t as int].0[k as int] <= '9');
                return true;
            }
            k += 1;
        }
        t += 1;
    }
    false
}

} // verus!

verus! {

/// The report sections that can be switched on and off.
#[derive(Debug, Clone, Copy, PartialEq, Eq)]
pub struct SectionFlags {
    pub pitch: bool,
    pub hnr: bool,
    pub spectral: bool,
    pub spectrum: bool,
    pub energy: bool,
    pub formants: bool,
    pub graph: bool,
}

/// The sections that a report has when nothing is asked for.
pub open spec fn default_flags() -> SectionFlags {
    SectionFlags {
        pitch: true,
        hnr: true,
        spectral: true,
        spectrum: false,
        energy: false,
        formants: false,
        graph: false,
    }
}

/// Switches the named section (or `all` of them) on or off; `None` for a
/// name that is no section.
pub open spec fn set_section(f: SectionFlags, name: Seq<char>, on: bool) -> Option<SectionFlags> {
    if name == "pitch"@ {
        Some(SectionFlags { pitch: on, ..f })
    } else if name == "hnr"@ {
        Some(SectionFlags { hnr: on, ..f })
    } else if name == "spectral"@ {
        Some(SectionFlags { spectral: on, ..f })
    } else if name == "spectrum"@ {
        Some(SectionFlags { spectrum: on, ..f })
    } else if name == "energy"@ {
        Some(SectionFlags { energy: on, ..f })
    } else if name == "formants"@ {
        Some(SectionFlags { formants: on, ..f })
    } else if name == "graph"@ {
        Some(SectionFlags { graph: on, ..f })
    } else if name == "all"@ {
        Some(
            SectionFlags {
                pitch: on,
                hnr: on,
                spectral: on,
                spectrum: on,
                energy: on,
                formants: on,
                graph: on,
            },
        )
    } else {
        None
    }
}

/// The three clip options, which each take a time value.
#[derive(Debug, Clone, Copy, PartialEq, Eq)]
pub enum ClipOption {
    From,
    To,
    Dur,
}

pub open spec fn clip_option(name: Seq<char>) -> Option<ClipOption> {
    if name == "from"@ {
        Some(ClipOption::From)
    } else if name == "to"@ {
        Some(ClipOption::To)
    } else if name == "dur"@ {
        Some(ClipOption::Dur)
    } else {
        None
    }
}

/// The message for `-from`, `-to` or `-dur`.
pub open spec fn negated_clip_message(o: ClipOption) -> Seq<char> {
    match o {
        ClipOption::From => "`+from` expects a time value; `-from` is not supported."@,
        ClipOption::To => "`+to` expects a time value; `-to` is not supported."@,
        ClipOption::Dur => "`+dur` expects a time value; `-dur` is not supported."@,
    }
}

/// The message for a clip option at the end of the command.
pub open spec fn missing_value_message(o: ClipOption) -> Seq<char> {
    match o {
        ClipOption::From => "`+from` requires a value like `20s`."@,
        ClipOption::To => "`+to` requires a value like `1m40s`."@,
        ClipOption::Dur => "`+dur` requires a value like `20s`."@,
    }
}

pub open spec fn unknown_feature_message(token: Seq<char>) -> Seq<char> {
    "Unknown feature `"@ + token
        + "`.\nUse: +/-pitch, +/-hnr, +/-spectral, +/-spectrum, +/-energy, +/-formants, +/-graph, +/-all, +from, +to, +dur"@
}

pub open spec fn invalid_time_message(flag: Seq<char>, value: Seq<char>) -> Seq<char> {
    "Invalid time value for `"@ + flag + "`: `"@ + value + "`."@
}

pub open spec fn nonpositive_time_message(flag: Seq<char>) -> Seq<char> {
    "Time value for `"@ + flag + "` must be greater than zero."@
}

/// What the options read so far amount to.
pub struct ParseState {
    pub flags: SectionFlags,
    pub from: Option<Seq<TermView>>,
    pub to: Option<Seq<TermView>>,
    pub dur: Option<Seq<TermView>>,
}

pub open spec fn with_clip(st: ParseState, o: ClipOption, v: Seq<TermView>) -> ParseState {
    match o {
        ClipOption::From => ParseState { from: Some(v), ..st },
        ClipOption::To => ParseState { to: Some(v), ..st },
        ClipOption::Dur => ParseState { dur: Some(v), ..st },
    }
}

/// Reads the option tokens from index `j` on: tokens that start with
/// neither `+` nor `-` are ignored; `+name` and `-name` switch a section;
/// `+from`, `+to` and `+dur` take the next token as a positive time value;
/// the first problem ends the reading with its message.
pub open spec fn parse_tokens(tokens: Seq<Seq<char>>, j: int, st: ParseState) -> Result<
    ParseState,
    Seq<char>,
>
    decreases tokens.len() - j,
{
    if j < 0 || j >= tokens.len() {
        Ok(st)
    } else {
        let token = tokens[j];
        if token.len() == 0 || (token[0] != '+' && token[0] != '-') {
            parse_tokens(tokens, j + 1, st)
        } else {
            let on = token[0] == '+';
            let name = token.skip(1);
            match set_section(st.flags, name, on) {
                Some(flags) => parse_tokens(tokens, j + 1, ParseState { flags, ..st }),
                None => match clip_option(name) {
                    None => Err(unknown_feature_message(token)),
                    Some(o) => if !on {
                        Err(negated_clip_message(o))
                    } else if j + 1 >= tokens.len() {
                        Err(missing_value_message(o))
                    } else {
                        match parse_time(tokens[j + 1]) {
                            None => Err(invalid_time_message(token, tokens[j + 1])),
                            Some(v) => if !time_is_positive(v) {
                                Err(nonpositive_time_message(token))
                            } else {
                                parse_tokens(tokens, j + 2, with_clip(st, o, v))
                            },
                        }
                    },
                },
            }
        }
    }
}

/// A clip as its start, whether its end is an end time (else a duration),
/// and that end time or duration.
pub type ClipView = (Seq<TermView>, bool, Seq<TermView>);

/// The clip that the clip options describe, or the message for a
/// combination that describes none.
pub open spec fn combine_clip(st: ParseState) -> Result<Option<ClipView>, Seq<char>> {
    match (st.from, st.to, st.dur) {
        (None, None, None) => Ok(None),
        (Some(f), Some(t), None) => Ok(Some((f, true, t))),
        (Some(f), None, Some(d)) => Ok(Some((f, false, d))),
        (None, Some(_), _) => Err("`+to` requires `+from`."@),
        (None, _, Some(_)) => Err("`+dur` requires `+from`."@),
        (Some(_), None, None) => Err("`+from` requires either `+to` or `+dur`."@),
        (Some(_), Some(_), Some(_)) => Err("Use either `+to` or `+dur`, not both."@),
    }
}

/// The options that `/analyze` text asks for: every word after the
/// command is read in turn.
pub open spec fn spec_parse_analyze_options(text: Seq<char>) -> Result<
    (SectionFlags, Option<ClipView>),
    Seq<char>,
> {
    match parse_tokens(
        words(text),
        1,
        ParseState { flags: default_flags(), from: None, to: None, dur: None },
    ) {
        Err(m) => Err(m),
        Ok(st) => match combine_clip(st) {
            Err(m) => Err(m),
            Ok(clip) => Ok((st.flags, clip)),
        },
    }
}

/// The token that switches a section on (`+name`) or off (`-name`).
pub open spec fn switch_token(name: Seq<char>, on: bool) -> Seq<char> {
    seq![if on { '+' } else { '-' }] + name
}

proof fn lemma_set_section_any(f: SectionFlags, g: SectionFlags, name: Seq<char>, on: bool)
    requires
        set_section(f, name, on) is Some,
    ensures
        set_section(g, name, on) is Some,
{
}

proof fn lemma_set_section_idempotent(f: SectionFlags, name: Seq<char>, on: bool)
    requires
        set_section(f, name, on) is Some,
    ensures
        set_section(set_section(f, name, on)->0, name, on) == set_section(f, name, on),
{
}

proof fn lemma_last_switch_from(tokens: Seq<Seq<char>>, j: int, st: ParseState, name: Seq<char>, on: bool)
    requires
        0 <= j < tokens.len(),
        tokens.last() == switch_token(name, on),
        set_section(st.flags, name, on) is Some,
        parse_tokens(tokens, j, st) is Ok,
    ensures
        set_section(parse_tokens(tokens, j, st)->Ok_0.flags, name, on) == Some(
            parse_tokens(tokens, j, st)->Ok_0.flags,
        ),
    decreases tokens.len() - j,
{
    let last = tokens.len() - 1;
    let token = tokens[j];
    assert(switch_token(name, on)[0] == (if on { '+' } else { '-' }));
    assert(switch_token(name, on).skip(1) =~= name);
    if j == last {
        lemma_set_section_idempotent(st.flags, name, on);
    } else if token.len() == 0 || (token[0] != '+' && token[0] != '-') {
        lemma_last_switch_from(tokens, j + 1, st, name, on);
    } else {
        let sign = token[0] == '+';
        let tname = token.skip(1);
        match set_section(st.flags, tname, sign) {
            Some(flags) => {
                lemma_set_section_any(st.flags, flags, name, on);
                lemma_last_switch_from(tokens, j + 1, ParseState { flags, ..st }, name, on);
            },
            None => {
                let o = clip_option(tname)->0;
                if j + 1 == last {
                    let value = tokens[j + 1];
                    assert(value[0] == (if on { '+' } else { '-' }));
                    assert(!is_number_char(value[0]));
                    assert(number_prefix_len(value) == 0);
                    assert(parse_time(value) is None);
                } else {
                    let v = parse_time(tokens[j + 1])->0;
                    assert(with_clip(st, o, v).flags == st.flags);
                    lemma_last_switch_from(tokens, j + 2, with_clip(st, o, v), name, on);
                }
            },
        }
    }
}

/// The last switch of a section decides it: when an `/analyze` command
/// that ends in `+name` or `-name` (for a section, or `all`) is read
/// without error, that switch leaves nothing more to change.
pub proof fn lemma_last_switch_wins(text: Seq<char>, name: Seq<char>, on: bool)
    requires
        words(text).len() >= 2,
        words(text).last() == switch_token(name, on),
        set_section(default_flags(), name, on) is Some,
        spec_parse_analyze_options(text) is Ok,
    ensures
        set_section(spec_parse_analyze_options(text)->Ok_0.0, name, on) == Some(
            spec_parse_analyze_options(text)->Ok_0.0,
        ),
{
    let initial = ParseState { flags: default_flags(), from: None, to: None, dur: None };
    lemma_last_switch_from(words(text), 1, initial, name, on);
}

impl AnalyzeOptions {
    pub open spec fn flags(&self) -> SectionFlags {
        SectionFlags {
            pitch: self.pitch,
            hnr: self.hnr,
            spectral: self.spectral,
            spectrum: self.spectrum,
            energy: self.energy,
            formants: self.formants,
            graph: self.graph,
        }
    }

    pub open spec fn clip_view(&self) -> Option<ClipView> {
        match self.clip {
            None => None,
            Some(c) => Some(
                (
                    c.from.view_terms(),
                    c.to is To,
                    match c.to {
                        ClipEnd::To(v) => v.view_terms(),
                        ClipEnd::Duration(v) => v.view_terms(),
                    },
                ),
            ),
        }
    }
}

} // verus!

verus! {

pub open spec fn opt_terms(v: Option<TimeValue>) -> Option<Seq<TermView>> {
    match v {
        Some(value) => Some(value.view_terms()),
        None => None,
    }
}

fn set_section_exec(f: SectionFlags, token: &Vec<char>, on: bool) -> (r: Option<SectionFlags>)
    requires
        token@.len() >= 1,
    ensures
        r == set_section(f, token@.skip(1), on),
{
    if chars_equal_from(token, 1, "pitch") {
        Some(SectionFlags { pitch: on, ..f })
    } else if chars_equal_from(token, 1, "hnr") {
        Some(SectionFlags { hnr: on, ..f })
    } else if chars_equal_from(token, 1, "spectral") {
        Some(SectionFlags { spectral: on, ..f })
    } else if chars_equal_from(token, 1, "spectrum") {
        Some(SectionFlags { spectrum: on, ..f })
    } else if chars_equal_from(token, 1, "energy") {
        Some(SectionFlags { energy: on, ..f })
    } else if chars_equal_from(token, 1, "formants") {
        Some(SectionFlags { formants: on, ..f })
    } else if chars_equal_from(token, 1, "graph") {
        Some(SectionFlags { graph: on, ..f })
    } else if chars_equal_from(token, 1, "all") {
        Some(
            SectionFlags {
                pitch: on,
                hnr: on,
                spectral: on,
                spectrum: on,
                energy: on,
                formants: on,
                graph: on,
            },
        )
    } else {
        None
    }
}

fn clip_option_exec(token: &Vec<char>) -> (r: Option<ClipOption>)
    requires
        token@.len() >= 1,
    ensures
        r == clip_option(token@.skip(1)),
{
    if chars_equal_from(token, 1, "from") {
        Some(ClipOption::From)
    } else if chars_equal_from(token, 1, "to") {
        Some(ClipOption::To)
    } else if chars_equal_from(token, 1, "dur") {
        Some(ClipOption::Dur)
    } else {
        None
    }
}

fn negated_clip_exec(o: ClipOption) -> (m: String)
    ensures
        m@ == negated_clip_message(o),
{
    match o {
        ClipOption::From => String::from_str("`+from` expects a time value; `-from` is not supported."),
        ClipOption::To => String::from_str("`+to` expects a time value; `-to` is not supported."),
        ClipOption::Dur => String::from_str("`+dur` expects a time value; `-dur` is not supported."),
    }
}

fn missing_value_exec(o: ClipOption) -> (m: String)
    ensures
        m@ == missing_value_message(o),
{
    match o {
        ClipOption::From => String::from_str("`+from` requires a value like `20s`."),
        ClipOption::To => String::from_str("`+to` requires a value like `1m40s`."),
        ClipOption::Dur => String::from_str("`+dur` requires a value like `20s`."),
    }
}

/// Reads the text of an `/analyze` command: the first word is the command
/// itself; `+name`/`-name` switch the sections `pitch`, `hnr`, `spectral`,
/// `spectrum`, `energy`, `formants`, `graph`, or `all` of them; `+from`
/// with `+to` or `+dur` selects a clip.
pub fn parse_analyze_options(text: &str) -> (r: Result<AnalyzeOptions, String>)
    ensures
        match (r, spec_parse_analyze_options(text@)) {
            (Ok(o), Ok((flags, clip))) => o.flags() == flags && o.clip_view() == clip,
            (Err(m), Err(n)) => m@ == n,
            _ => false,
        },
{
    let tokens = split_words(text);
    let ghost toks = char_vecs_view(tokens@);
    let ghost initial = ParseState { flags: default_flags(), from: None, to: None, dur: None };
    let ghost result = parse_tokens(toks, 1, initial);
    let mut flags = SectionFlags {
        pitch: true,
        hnr: true,
        spectral: true,
        spectrum: false,
        energy: false,
        formants: false,
        graph: false,
    };
    let mut from: Option<TimeValue> = None;
    let mut to: Option<TimeValue> = None;
    let mut dur: Option<TimeValue> = None;
    let mut j: usize = 1;
    while j < tokens.len()
        invariant
            toks == char_vecs_view(tokens@),
            toks == words(text@),
            result == parse_tokens(toks, 1, initial),
            initial == (ParseState { flags: default_flags(), from: None, to: None, dur: None }),
            toks.len() == tokens@.len(),
            1 <= j,
            result == parse_tokens(
                toks,
                j as int,
                ParseState { flags, from: opt_terms(from), to: opt_terms(to), dur: opt_terms(dur) },
            ),
        decreases tokens@.len() - j,
    {
        let ghost st = ParseState {
            flags,
            from: opt_terms(from),
            to: opt_terms(to),
            dur: opt_terms(dur),
        };
        let token = &tokens[j];
        assert(token@ == toks[j as int]);
        if token.len() == 0 || (token[0] != '+' && token[0] != '-') {
            j += 1;
            continue;
        }
        let on = token[0] == '+';
        match set_section_exec(flags, token, on) {
            Some(updated) => {
                flags = updated;
                j += 1;
            },
            None => {
                match clip_option_exec(token) {
                    None => {
                        let mut m = String::from_str("Unknown feature `");
                        push_chars(&mut m, token);
                        m.append(
                            "`.\nUse: +/-pitch, +/-hnr, +/-spectral, +/-spectrum, +/-energy, +/-formants, +/-graph, +/-all, +from, +to, +dur",
                        );
                        return Err(m);
                    },
                    Some(o) => {
                        if !on {
                            return Err(negated_clip_exec(o));
                        }
                        if j + 1 >= tokens.len() {
                            return Err(missing_value_exec(o));
                        }
                        let value_token = &tokens[j + 1];
                        assert(value_token@ == toks[j + 1]);
                        match parse_time_value(value_token) {
                            None => {
                                let mut m = String::from_str("Invalid time value for `");
                                push_chars(&mut m, token);
                                m.append("`: `");
                                push_chars(&mut m, value_token);
                                m.append("`.");
                                return Err(m);
                            },
                            Some(v) => {
                                if !time_value_is_positive(&v) {
                                    let mut m = String::from_str("Time value for `");
                                    push_chars(&mut m, token);
                                    m.append("` must be greater than zero.");
                                    return Err(m);
                                }
                                match o {
                                    ClipOption::From => {
                                        from = Some(v);
                                    },
                                    ClipOption::To => {
                                        to = Some(v);
                                    },
                                    ClipOption::Dur => {
                                        dur = Some(v);
                                    },
                                }
                                j += 2;
                            },
                        }
                    },
                }
            },
        }
    }
    let ghost st = ParseState { flags, from: opt_terms(from), to: opt_terms(to), dur: opt_terms(dur) };
    assert(result == Ok::<ParseState, Seq<char>>(st));
    let clip = match (from, to, dur) {
        (None, None, None) => None,
        (Some(f), Some(t), None) => Some(ClipSpec { from: f, to: ClipEnd::To(t) }),
        (Some(f), None, Some(d)) => Some(ClipSpec { from: f, to: ClipEnd::Duration(d) }),
        (None, Some(_), _) => {
            return Err(String::from_str("`+to` requires `+from`."));
        },
        (None, _, Some(_)) => {
            return Err(String::from_str("`+dur` requires `+from`."));
        },
        (Some(_), None, None) => {
            return Err(String::from_str("`+from` requires either `+to` or `+dur`."));
        },
        (Some(_), Some(_), Some(_)) => {
            return Err(String::from_str("Use either `+to` or `+dur`, not both."));
        },
    };
    Ok(
        AnalyzeOptions {
            pitch: flags.pitch,
            hnr: flags.hnr,
            spectral: flags.spectral,
            spectrum: flags.spectrum,
            energy: flags.energy,
            formants: flags.formants,
            graph: flags.graph,
            clip,
        },
    )
}

/// Switching `all` sets every section, the graph included, to the sign
/// given, whatever the sections were before; switching one section sets
/// that section alone and keeps the others.
pub proof fn lemma_section_switches(f: SectionFlags, on: bool)
    ensures
        set_section(f, "all"@, on) == Some(
            SectionFlags {
                pitch: on,
                hnr: on,
                spectral: on,
                spectrum: on,
                energy: on,
                formants: on,
                graph: on,
            },
        ),
        set_section(f, "pitch"@, on) == Some(SectionFlags { pitch: on, ..f }),
        set_section(f, "hnr"@, on) == Some(SectionFlags { hnr: on, ..f }),
        set_section(f, "spectral"@, on) == Some(SectionFlags { spectral: on, ..f }),
        set_section(f, "spectrum"@, on) == Some(SectionFlags { spectrum: on, ..f }),
        set_section(f, "energy"@, on) == Some(SectionFlags { energy: on, ..f }),
        set_section(f, "formants"@, on) == Some(SectionFlags { formants: on, ..f }),
        set_section(f, "graph"@, on) == Some(SectionFlags { graph: on, ..f }),
{
    reveal_strlit("all");
    reveal_strlit("pitch");
    reveal_strlit("hnr");
    reveal_strlit("spectral");
    reveal_strlit("spectrum");
    reveal_strlit("energy");
    reveal_strlit("formants");
    reveal_strlit("graph");
    assert("hnr"@ != "pitch"@) by { assert("hnr"@.len() != "pitch"@.len()); }
    assert("spectral"@ != "pitch"@) by { assert("spectral"@.len() != "pitch"@.len()); }
    assert("spectral"@ != "hnr"@) by { assert("spectral"@.len() != "hnr"@.len()); }
    assert("spectrum"@ != "pitch"@) by { assert("spectrum"@.len() != "pitch"@.len()); }
    assert("spectrum"@ != "hnr"@) by { assert("spectrum"@.len() != "hnr"@.len()); }
    assert("spectrum"@ != "spectral"@) by { assert("spectrum"@[6] != "spectral"@[6]); }
    assert("energy"@ != "pitch"@) by { assert("energy"@.len() != "pitch"@.len()); }
    assert("energy"@ != "hnr"@) by { assert("energy"@.len() != "hnr"@.len()); }
    assert("energy"@ != "spectral"@) by { assert("energy"@.len() != "spectral"@.len()); }
    assert("energy"@ != "spectrum"@) by { assert("energy"@.len() != "spectrum"@.len()); }
    assert("formants"@ != "pitch"@) by { assert("formants"@.len() != "pitch"@.len()); }
    assert("formants"@ != "hnr"@) by { assert("formants"@.len() != "hnr"@.len()); }
    assert("formants"@ != "spectral"@) by { assert("formants"@[0] != "spectral"@[0]); }
    assert("formants"@ != "spectrum"@) by { assert("formants"@[0] != "spectrum"@[0]); }
    assert("formants"@ != "energy"@) by { assert("formants"@.len() != "energy"@.len()); }
    assert("graph"@ != "pitch"@) by { assert("graph"@[0] != "pitch"@[0]); }
    assert("graph"@ != "hnr"@) by { assert("graph"@.len() != "hnr"@.len()); }
    assert("graph"@ != "spectral"@) by { assert("graph"@.len() != "spectral"@.len()); }
    assert("graph"@ != "spectrum"@) by { assert("graph"@.len() != "spectrum"@.len()); }
    assert("graph"@ != "energy"@) by { assert("graph"@.len() != "energy"@.len()); }
    assert("graph"@ != "formants"@) by { assert("graph"@.len() != "formants"@.len()); }
    assert("all"@ != "pitch"@) by { assert("all"@.len() != "pitch"@.len()); }
    assert("all"@ != "hnr"@) by { assert("all"@[0] != "hnr"@[0]); }
    assert("all"@ != "spectral"@) by { assert("all"@.len() != "spectral"@.len()); }
    assert("all"@ != "spectrum"@) by { assert("all"@.len() != "spectrum"@.len()); }
    assert("all"@ != "energy"@) by { assert("all"@.len() != "energy"@.len()); }
    assert("all"@ != "formants"@) by { assert("all"@.len() != "formants"@.len()); }
    assert("all"@ != "graph"@) by { assert("all"@.len() != "graph"@.len()); }
}

} // verus!
