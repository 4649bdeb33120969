//! The values that the command line takes: step sizes, payload sizes, the order of plateaus and
//! what a failed profiled worker means.

use rand::rngs::StdRng;
use std::str::FromStr;
use vstd::prelude::*;

use crate::draw;
use crate::draw::{draw_between, shuffle};
use crate::text;
use crate::text::{chars_of, decimal_text, join, parse_index, split, str_eq, text_of, trim};

verus! {

/// What the failure of a profiled worker does to the run.
#[derive(Debug, Clone, Copy, PartialEq, Eq, Structural)]
pub enum ProfiledFailurePolicy {
    StopOnProfiledFailure,
    RemoveAndContinue,
}

/// The order in which the plateaus are visited.
#[derive(Debug, Clone, Copy, PartialEq, Eq, Structural)]
pub enum PlateauOrder {
    Staircase,
    Ascending,
    Randomized,
}

/// How far apart neighbouring plateaus are.
#[derive(Debug, Clone, PartialEq, Eq, Structural)]
pub enum StepSize {
    Fixed(usize),
    UniformRange { min: usize, max: usize },
}

/// The sizes of application messages.
#[derive(Debug, Clone, PartialEq, Eq)]
pub enum PayloadSizes {
    Fixed(Vec<usize>),
    UniformRange { min: usize, max: usize },
}

/// Where the size of one message comes from.
#[derive(Debug, Clone, Copy, PartialEq, Eq, Structural)]
pub enum PayloadSizeSource {
    Fixed(usize),
    UniformRange { min: usize, max: usize },
}

// ---------------------------------------------------------------------------
// What the flags mean
// ---------------------------------------------------------------------------

/// The number that one integer of a flag's value means, or the text of the error.
pub open spec fn index_meant(value: Seq<char>, flag: Seq<char>) -> Result<usize, Seq<char>> {
    let given = text::trimmed(value);
    if given.len() == 0 {
        Err(flag + " contains an empty integer"@)
    } else {
        match text::spelled_up_to(given, usize::MAX as nat) {
            Some(n) => Ok(n as usize),
            None => Err(flag + " expected an integer, got '"@ + given + "'"@),
        }
    }
}

/// What a list of integers means: the numbers, or the error of the first that is none.
pub open spec fn indices_meant(parts: Seq<Seq<char>>, flag: Seq<char>) -> Result<
    Seq<usize>,
    Seq<char>,
>
    decreases parts.len(),
{
    if parts.len() == 0 {
        Ok(Seq::empty())
    } else {
        match indices_meant(parts.drop_last(), flag) {
            Err(message) => Err(message),
            Ok(numbers) => match index_meant(parts.last(), flag) {
                Err(message) => Err(message),
                Ok(n) => Ok(numbers.push(n)),
            },
        }
    }
}

/// The bounds that a value such as `[2,5]` means; nothing where the value has no bracket.
pub open spec fn uniform_range_meant(value: Seq<char>, flag: Seq<char>) -> Result<
    Option<(usize, usize)>,
    Seq<char>,
> {
    let given = text::trimmed(value);
    if !given.contains('[') && !given.contains(']') {
        Ok(None)
    } else if given[0] != '[' || given.last() != ']' {
        Err(flag + " range must use [min,max], got '"@ + given + "'"@)
    } else {
        let bounds = text::pieces(given.subrange(1, given.len() - 1), ',');
        if bounds.len() != 2 {
            Err(flag + " range must contain exactly two integers, got '"@ + given + "'"@)
        } else {
            match index_meant(bounds[0], flag) {
                Err(message) => Err(message),
                Ok(min) => match index_meant(bounds[1], flag) {
                    Err(message) => Err(message),
                    Ok(max) => if min > max {
                        Err(
                            flag + " range minimum "@ + text::decimal(min as nat)
                                + " exceeds maximum "@ + text::decimal(max as nat),
                        )
                    } else {
                        Ok(Some((min, max)))
                    },
                },
            }
        }
    }
}

/// What a value of `--step-size` means.
pub open spec fn step_size_meant(value: Seq<char>) -> Result<StepSize, Seq<char>> {
    match uniform_range_meant(value, "--step-size"@) {
        Err(message) => Err(message),
        Ok(Some((min, max))) => if min == 0 {
            Err("--step-size range minimum must be at least 1"@)
        } else {
            Ok(StepSize::UniformRange { min, max })
        },
        Ok(None) => match index_meant(value, "--step-size"@) {
            Err(message) => Err(message),
            Ok(step) => if step == 0 {
                Err("--step-size must be at least 1"@)
            } else {
                Ok(StepSize::Fixed(step))
            },
        },
    }
}

/// What a value of `--plateau-order` means.
pub open spec fn plateau_order_meant(value: Seq<char>) -> Result<PlateauOrder, Seq<char>> {
    let given = text::lowered(text::trimmed(value));
    if given == "staircase"@ {
        Ok(PlateauOrder::Staircase)
    } else if given == "ascending"@ || given == "asc"@ {
        Ok(PlateauOrder::Ascending)
    } else if given == "randomized"@ || given == "random"@ {
        Ok(PlateauOrder::Randomized)
    } else {
        Err(
            "--plateau-order expected 'staircase', 'ascending', or 'randomized', got '"@ + given
                + "'"@,
        )
    }
}

/// What the name of a failure policy means.
pub open spec fn profiled_failure_policy_meant(value: Seq<char>) -> Result<
    ProfiledFailurePolicy,
    Seq<char>,
> {
    if value == "stop-on-profiled-failure"@ {
        Ok(ProfiledFailurePolicy::StopOnProfiledFailure)
    } else if value == "remove-and-continue"@ {
        Ok(ProfiledFailurePolicy::RemoveAndContinue)
    } else {
        Err(
            "invalid profiled failure policy '"@ + value
                + "'; expected stop-on-profiled-failure or remove-and-continue"@,
        )
    }
}

/// A result is the one meant, with the text of the error where it is one.
pub open spec fn as_meant<T>(result: Result<T, String>, meant: Result<T, Seq<char>>) -> bool {
    match meant {
        Ok(value) => result == Ok::<T, String>(value),
        Err(message) => result is Err && result->Err_0@ == message,
    }
}

/// A result is what a value of `--payload-sizes` means: a range, or else a list of numbers.
pub open spec fn payload_sizes_as_meant(result: Result<PayloadSizes, String>, value: Seq<char>) -> bool {
    match uniform_range_meant(value, "--payload-sizes"@) {
        Err(message) => result is Err && result->Err_0@ == message,
        Ok(Some((min, max))) => result is Ok && result->Ok_0 == (PayloadSizes::UniformRange {
            min,
            max,
        }),
        Ok(None) => match indices_meant(text::pieces(value, ','), "--payload-sizes"@) {
            Err(message) => result is Err && result->Err_0@ == message,
            Ok(numbers) => result is Ok && result->Ok_0 is Fixed && result->Ok_0->Fixed_0@
                == numbers,
        },
    }
}

/// The decimal texts of a list of numbers.
pub open spec fn decimals(numbers: Seq<usize>) -> Seq<Seq<char>> {
    numbers.map_values(|n: usize| text::decimal(n as nat))
}

/// A range as it is typed, such as `[2,5]`.
pub open spec fn bracketed(min: usize, max: usize) -> Seq<char> {
    "["@ + text::decimal(min as nat) + ","@ + text::decimal(max as nat) + "]"@
}

// ---------------------------------------------------------------------------
// Reading the flags
// ---------------------------------------------------------------------------

/// Reads one integer of a flag's value.
pub fn parse_usize(value: &str, flag: &str) -> (result: Result<usize, String>)
    ensures
        as_meant(result, index_meant(value@, flag@)),
{
    let given: String = trim(value);
    if chars_of(given.as_str()).len() == 0 {
        let mut message: String = flag.to_owned();
        message.append(" contains an empty integer");
        return Err(message);
    }
    match parse_index(given.as_str()) {
        Some(n) => Ok(n),
        None => {
            let mut message: String = flag.to_owned();
            message.append(" expected an integer, got '");
            message.append(given.as_str());
            message.append("'");
            Err(message)
        },
    }
}

fn has_char(chars: &Vec<char>, c: char) -> (yes: bool)
    ensures
        yes == chars@.contains(c),
{
    let mut i: usize = 0;
    while i < chars.len()
        invariant
            i <= chars@.len(),
            forall|j: int| 0 <= j < i ==> chars@[j] != c,
        decreases chars@.len() - i,
    {
        if chars[i] == c {
            assert(chars@.contains(chars@[i as int]));
            return true;
        }
        i = i + 1;
    }
    false
}

/// Reads a range such as `[2,5]`; nothing where the value has no bracket.
pub fn parse_uniform_range(value: &str, flag: &str) -> (result: Result<
    Option<(usize, usize)>,
    String,
>)
    ensures
        as_meant(result, uniform_range_meant(value@, flag@)),
{
    let given: String = trim(value);
    let chars: Vec<char> = chars_of(given.as_str());
    if !has_char(&chars, '[') && !has_char(&chars, ']') {
        return Ok(None);
    }
    if chars[0] != '[' || chars[chars.len() - 1] != ']' {
        let mut message: String = flag.to_owned();
        message.append(" range must use [min,max], got '");
        message.append(given.as_str());
        message.append("'");
        return Err(message);
    }
    let inside: String = text_of(&chars, 1, chars.len() - 1);
    let bounds: Vec<String> = split(inside.as_str(), ',');
    let ghost parts = text::pieces(inside@, ',');
    if bounds.len() != 2 {
        let mut message: String = flag.to_owned();
        message.append(" range must contain exactly two integers, got '");
        message.append(given.as_str());
        message.append("'");
        return Err(message);
    }
    assert(parts[0] == text::texts(bounds@)[0]);
    assert(parts[1] == text::texts(bounds@)[1]);
    let min: usize = match parse_usize(bounds[0].as_str(), flag) {
        Ok(min) => min,
        Err(message) => {
            return Err(message);
        },
    };
    let max: usize = match parse_usize(bounds[1].as_str(), flag) {
        Ok(max) => max,
        Err(message) => {
            return Err(message);
        },
    };
    if min > max {
        let mut message: String = flag.to_owned();
        message.append(" range minimum ");
        message.append(decimal_text(min as u128).as_str());
        message.append(" exceeds maximum ");
        message.append(decimal_text(max as u128).as_str());
        return Err(message);
    }
    Ok(Some((min, max)))
}

fn bracketed_text(min: usize, max: usize) -> (out: String)
    ensures
        out@ == bracketed(min, max),
{
    let mut out: String = "[".to_owned();
    out.append(decimal_text(min as u128).as_str());
    out.append(",");
    out.append(decimal_text(max as u128).as_str());
    out.append("]");
    out
}

impl ProfiledFailurePolicy {
    /// Reads the name of a policy.
    pub fn parse(value: &str) -> (result: Result<ProfiledFailurePolicy, String>)
        ensures
            as_meant(result, profiled_failure_policy_meant(value@)),
    {
        if str_eq(value, "stop-on-profiled-failure") {
            Ok(ProfiledFailurePolicy::StopOnProfiledFailure)
        } else if str_eq(value, "remove-and-continue") {
            Ok(ProfiledFailurePolicy::RemoveAndContinue)
        } else {
            let mut message: String = "invalid profiled failure policy '".to_owned();
            message.append(value);
            message.append("'; expected stop-on-profiled-failure or remove-and-continue");
            Err(message)
        }
    }

    /// Whether a run goes on after a profiled worker failed.
    pub fn continues(self, failure_experiment: bool) -> (yes: bool)
        ensures
            yes == (failure_experiment || self == ProfiledFailurePolicy::RemoveAndContinue),
    {
        failure_experiment || self == ProfiledFailurePolicy::RemoveAndContinue
    }
}

impl Default for ProfiledFailurePolicy {
    fn default() -> (policy: ProfiledFailurePolicy)
        ensures
            policy == ProfiledFailurePolicy::StopOnProfiledFailure,
    {
        ProfiledFailurePolicy::StopOnProfiledFailure
    }
}

impl FromStr for ProfiledFailurePolicy {
    type Err = String;

    fn from_str(value: &str) -> (result: Result<ProfiledFailurePolicy, String>)
        ensures
            as_meant(result, profiled_failure_policy_meant(value@)),
    {
        ProfiledFailurePolicy::parse(value)
    }
}

impl PlateauOrder {
    /// Reads a value of `--plateau-order`.
    pub fn parse(value: &str) -> (result: Result<PlateauOrder, String>)
        ensures
            as_meant(result, plateau_order_meant(value@)),
    {
        let given: String = text::to_ascii_lowercase(trim(value).as_str());
        if str_eq(given.as_str(), "staircase") {
            Ok(PlateauOrder::Staircase)
        } else if str_eq(given.as_str(), "ascending") || str_eq(given.as_str(), "asc") {
            Ok(PlateauOrder::Ascending)
        } else if str_eq(given.as_str(), "randomized") || str_eq(given.as_str(), "random") {
            Ok(PlateauOrder::Randomized)
        } else {
            let mut message: String =
                "--plateau-order expected 'staircase', 'ascending', or 'randomized', got '".to_owned();
            message.append(given.as_str());
            message.append("'");
            Err(message)
        }
    }

    /// The name of an order, as it is typed.
    pub open spec fn name(self) -> Seq<char> {
        match self {
            PlateauOrder::Staircase => "staircase"@,
            PlateauOrder::Ascending => "ascending"@,
            PlateauOrder::Randomized => "randomized"@,
        }
    }

    /// The order as it is typed.
    pub fn text(self) -> (out: String)
        ensures
            out@ == self.name(),
    {
        match self {
            PlateauOrder::Staircase => "staircase".to_owned(),
            PlateauOrder::Ascending => "ascending".to_owned(),
            PlateauOrder::Randomized => "randomized".to_owned(),
        }
    }
}

impl FromStr for PlateauOrder {
    type Err = String;

    fn from_str(value: &str) -> (result: Result<PlateauOrder, String>)
        ensures
            as_meant(result, plateau_order_meant(value@)),
    {
        PlateauOrder::parse(value)
    }
}

impl StepSize {
    /// A step has at least one member, and a range is not empty.
    pub open spec fn wf(self) -> bool {
        match self {
            StepSize::Fixed(step) => step > 0,
            StepSize::UniformRange { min, max } => 0 < min <= max,
        }
    }

    /// A number that a step may have.
    pub open spec fn allows(self, step: int) -> bool {
        match self {
            StepSize::Fixed(fixed) => step == fixed,
            StepSize::UniformRange { min, max } => min <= step <= max,
        }
    }

    /// The step drawn in a given state of the generator.
    pub open spec fn step_at(self, state: int) -> int {
        match self {
            StepSize::Fixed(fixed) => fixed as int,
            StepSize::UniformRange { min, max } => draw::draw_at(state, min as int, max as int),
        }
    }

    /// The generator's state after a step was drawn.
    pub open spec fn state_after(self, state: int) -> int {
        match self {
            StepSize::Fixed(_) => state,
            StepSize::UniformRange { min, max } => draw::state_after_draw(
                state,
                min as int,
                max as int,
            ),
        }
    }

    /// The step size as it is typed.
    pub open spec fn typed(self) -> Seq<char> {
        match self {
            StepSize::Fixed(step) => text::decimal(step as nat),
            StepSize::UniformRange { min, max } => bracketed(min, max),
        }
    }

    /// Reads a value of `--step-size`.
    pub fn parse(value: &str) -> (result: Result<StepSize, String>)
        ensures
            as_meant(result, step_size_meant(value@)),
            result is Ok ==> result->Ok_0.wf(),
    {
        match parse_uniform_range(value, "--step-size") {
            Err(message) => Err(message),
            Ok(Some((min, max))) => {
                if min == 0 {
                    Err("--step-size range minimum must be at least 1".to_owned())
                } else {
                    Ok(StepSize::UniformRange { min, max })
                }
            },
            Ok(None) => match parse_usize(value, "--step-size") {
                Err(message) => Err(message),
                Ok(step) => {
                    if step == 0 {
                        Err("--step-size must be at least 1".to_owned())
                    } else {
                        Ok(StepSize::Fixed(step))
                    }
                },
            },
        }
    }

    /// Draws a step.
    pub fn sample(&self, rng: &mut StdRng) -> (step: usize)
        requires
            self.wf(),
        ensures
            self.allows(step as int),
            step == self.step_at(draw::generator_state(*old(rng))),
            draw::generator_state(*final(rng)) == self.state_after(
                draw::generator_state(*old(rng)),
            ),
    {
        match self {
            StepSize::Fixed(step) => *step,
            StepSize::UniformRange { min, max } => draw_between(rng, *min, *max),
        }
    }

    /// No step is zero.
    pub open spec fn positive(self) -> bool {
        match self {
            StepSize::Fixed(step) => step > 0,
            StepSize::UniformRange { min, max: _ } => min > 0,
        }
    }

    /// Whether no step is zero.
    pub fn is_valid(&self) -> (yes: bool)
        ensures
            yes == self.positive(),
    {
        match self {
            StepSize::Fixed(step) => *step > 0,
            StepSize::UniformRange { min, max: _ } => *min > 0,
        }
    }

    /// The step size as it is typed.
    pub fn text(&self) -> (out: String)
        ensures
            out@ == self.typed(),
    {
        match self {
            StepSize::Fixed(step) => decimal_text(*step as u128),
            StepSize::UniformRange { min, max } => bracketed_text(*min, *max),
        }
    }
}

impl FromStr for StepSize {
    type Err = String;

    fn from_str(value: &str) -> (result: Result<StepSize, String>)
        ensures
            as_meant(result, step_size_meant(value@)),
            result is Ok ==> result->Ok_0.wf(),
    {
        StepSize::parse(value)
    }
}

impl PayloadSizes {
    /// A range is not empty.
    pub open spec fn wf(&self) -> bool {
        match self {
            PayloadSizes::Fixed(_) => true,
            PayloadSizes::UniformRange { min, max } => *min <= *max,
        }
    }

    /// How many sources the sizes come from.
    pub open spec fn sources(&self) -> nat {
        match self {
            PayloadSizes::Fixed(sizes) => sizes@.len(),
            PayloadSizes::UniformRange { min, max } => 1,
        }
    }

    /// The sources in the order in which a given state of the generator puts them.
    pub open spec fn sources_at(&self, state: int) -> Seq<PayloadSizeSource> {
        match self {
            PayloadSizes::Fixed(sizes) => draw::shuffled(sizes@, state).map_values(
                |size: usize| PayloadSizeSource::Fixed(size),
            ),
            PayloadSizes::UniformRange { min, max } => seq![
                PayloadSizeSource::UniformRange { min: *min, max: *max },
            ],
        }
    }

    /// The generator's state after the sources were put in order.
    pub open spec fn state_after(&self, state: int) -> int {
        match self {
            PayloadSizes::Fixed(sizes) => draw::state_after_shuffle(state, sizes@.len() as int),
            PayloadSizes::UniformRange { min, max } => state,
        }
    }

    /// The sizes as they are typed.
    pub open spec fn typed(&self) -> Seq<char> {
        match self {
            PayloadSizes::Fixed(sizes) => text::joined(decimals(sizes@), ","@),
            PayloadSizes::UniformRange { min, max } => bracketed(*min, *max),
        }
    }

    /// Whether there is no size at all.
    pub fn is_empty(&self) -> (yes: bool)
        ensures
            yes == (self.sources() == 0),
    {
        match self {
            PayloadSizes::Fixed(sizes) => sizes.len() == 0,
            PayloadSizes::UniformRange { min: _, max: _ } => false,
        }
    }

    /// How many sources the sizes come from.
    pub fn source_count(&self) -> (count: usize)
        ensures
            count == self.sources(),
    {
        match self {
            PayloadSizes::Fixed(sizes) => sizes.len(),
            PayloadSizes::UniformRange { min: _, max: _ } => 1,
        }
    }

    /// The sources, in random order.
    pub fn shuffled_sources(&self, rng: &mut StdRng) -> (sources: Vec<PayloadSizeSource>)
        ensures
            sources@ == self.sources_at(draw::generator_state(*old(rng))),
            sources@.len() == self.sources(),
            self.wf() ==> forall|i: int| 0 <= i < sources@.len() ==> (#[trigger] sources@[i]).wf(),
            draw::generator_state(*final(rng)) == self.state_after(
                draw::generator_state(*old(rng)),
            ),
    {
        match self {
            PayloadSizes::Fixed(sizes) => {
                let mut order: Vec<usize> = Vec::new();
                let mut i: usize = 0;
                while i < sizes.len()
                    invariant
                        i <= sizes@.len(),
                        order@ == sizes@.take(i as int),
                    decreases sizes@.len() - i,
                {
                    order.push(sizes[i]);
                    i = i + 1;
                    assert(order@ =~= sizes@.take(i as int));
                }
                assert(order@ =~= sizes@);
                shuffle(&mut order, rng);
                let mut sources: Vec<PayloadSizeSource> = Vec::new();
                let mut k: usize = 0;
                while k < order.len()
                    invariant
                        k <= order@.len(),
                        sources@.len() == k,
                        forall|j: int|
                            0 <= j < k ==> sources@[j] == PayloadSizeSource::Fixed(order@[j]),
                    decreases order@.len() - k,
                {
                    sources.push(PayloadSizeSource::Fixed(order[k]));
                    k = k + 1;
                }
                assert(sources@ =~= order@.map_values(|size: usize| PayloadSizeSource::Fixed(size)));
                sources
            },
            PayloadSizes::UniformRange { min, max } => {
                let sources: Vec<PayloadSizeSource> = vec![
                    PayloadSizeSource::UniformRange { min: *min, max: *max },
                ];
                assert(sources@ =~= self.sources_at(draw::generator_state(*rng)));
                sources
            },
        }
    }

    /// Reads a value of `--payload-sizes`.
    pub fn parse(value: &str) -> (result: Result<PayloadSizes, String>)
        ensures
            payload_sizes_as_meant(result, value@),
            result is Ok ==> result->Ok_0.wf() && result->Ok_0.sources() > 0,
    {
        match parse_uniform_range(value, "--payload-sizes") {
            Err(message) => {
                return Err(message);
            },
            Ok(Some((min, max))) => {
                return Ok(PayloadSizes::UniformRange { min, max });
            },
            Ok(None) => {},
        }
        let parts: Vec<String> = split(value, ',');
        let ghost all = text::pieces(value@, ',');
        let mut sizes: Vec<usize> = Vec::new();
        let mut i: usize = 0;
        while i < parts.len()
            invariant
                i <= parts@.len(),
                all == text::texts(parts@),
                sizes@.len() == i,
                indices_meant(all.take(i as int), "--payload-sizes"@) == Ok::<Seq<usize>, Seq<char>>(
                    sizes@,
                ),
                all == text::pieces(value@, ','),
                uniform_range_meant(value@, "--payload-sizes"@) == Ok::<
                    Option<(usize, usize)>,
                    Seq<char>,
                >(None),
            decreases parts@.len() - i,
        {
            let ghost before = all.take(i as int);
            let ghost now = all.take(i + 1);
            assert(now.drop_last() =~= before);
            assert(now.last() == parts@[i as int]@);
            match parse_usize(parts[i].as_str(), "--payload-sizes") {
                Ok(n) => {
                    sizes.push(n);
                },
                Err(message) => {
                    proof {
                        lemma_first_error(all, "--payload-sizes"@, i as int);
                    }
                    return Err(message);
                },
            }
            i = i + 1;
        }
        assert(all.take(i as int) =~= all);
        Ok(PayloadSizes::Fixed(sizes))
    }

    /// The sizes as they are typed.
    pub fn text(&self) -> (out: String)
        ensures
            out@ == self.typed(),
    {
        match self {
            PayloadSizes::Fixed(sizes) => {
                let mut parts: Vec<String> = Vec::new();
                let mut i: usize = 0;
                while i < sizes.len()
                    invariant
                        i <= sizes@.len(),
                        parts@.len() == i,
                        forall|j: int|
                            0 <= j < i ==> (#[trigger] parts@[j])@ == text::decimal(
                                sizes@[j] as nat,
                            ),
                    decreases sizes@.len() - i,
                {
                    parts.push(decimal_text(sizes[i] as u128));
                    i = i + 1;
                }
                assert(text::texts(parts@) =~= decimals(sizes@));
                join(&parts, ",")
            },
            PayloadSizes::UniformRange { min, max } => bracketed_text(*min, *max),
        }
    }
}

proof fn lemma_first_error(parts: Seq<Seq<char>>, flag: Seq<char>, at: int)
    requires
        0 <= at < parts.len(),
        indices_meant(parts.take(at), flag) is Ok,
        index_meant(parts[at], flag) is Err,
    ensures
        indices_meant(parts, flag) == Err::<Seq<usize>, Seq<char>>(
            index_meant(parts[at], flag)->Err_0,
        ),
    decreases parts.len(),
{
    if at == parts.len() - 1 {
        assert(parts.drop_last() =~= parts.take(at));
    } else {
        assert(parts.drop_last().take(at) =~= parts.take(at));
        lemma_first_error(parts.drop_last(), flag, at);
    }
}

impl FromStr for PayloadSizes {
    type Err = String;

    fn from_str(value: &str) -> (result: Result<PayloadSizes, String>)
        ensures
            payload_sizes_as_meant(result, value@),
            result is Ok ==> result->Ok_0.wf() && result->Ok_0.sources() > 0,
    {
        PayloadSizes::parse(value)
    }
}

impl PayloadSizeSource {
    /// A range is not empty.
    pub open spec fn wf(self) -> bool {
        match self {
            PayloadSizeSource::Fixed(_) => true,
            PayloadSizeSource::UniformRange { min, max } => min <= max,
        }
    }

    /// The size drawn in a given state of the generator.
    pub open spec fn size_at(self, state: int) -> int {
        match self {
            PayloadSizeSource::Fixed(size) => size as int,
            PayloadSizeSource::UniformRange { min, max } => draw::draw_at(
                state,
                min as int,
                max as int,
            ),
        }
    }

    /// The generator's state after a size was drawn.
    pub open spec fn state_after(self, state: int) -> int {
        match self {
            PayloadSizeSource::Fixed(_) => state,
            PayloadSizeSource::UniformRange { min, max } => draw::state_after_draw(
                state,
                min as int,
                max as int,
            ),
        }
    }

    /// The source as progress reports name it.
    pub open spec fn label(self) -> Seq<char> {
        match self {
            PayloadSizeSource::Fixed(size) => "payload "@ + text::decimal(size as nat) + " B"@,
            PayloadSizeSource::UniformRange { min, max } => "payload range "@ + bracketed(min, max)
                + " B"@,
        }
    }

    /// Draws a size.
    pub fn sample(self, rng: &mut StdRng) -> (size: usize)
        requires
            self.wf(),
        ensures
            size == self.size_at(draw::generator_state(*old(rng))),
            match self {
                PayloadSizeSource::Fixed(fixed) => size == fixed,
                PayloadSizeSource::UniformRange { min, max } => min <= size <= max,
            },
            draw::generator_state(*final(rng)) == self.state_after(
                draw::generator_state(*old(rng)),
            ),
    {
        match self {
            PayloadSizeSource::Fixed(size) => size,
            PayloadSizeSource::UniformRange { min, max } => draw_between(rng, min, max),
        }
    }

    /// The source as progress reports name it.
    pub fn phase_label(self) -> (out: String)
        ensures
            out@ == self.label(),
    {
        match self {
            PayloadSizeSource::Fixed(size) => {
                let mut out: String = "payload ".to_owned();
                out.append(decimal_text(size as u128).as_str());
                out.append(" B");
                out
            },
            PayloadSizeSource::UniformRange { min, max } => {
                let mut out: String = "payload range ".to_owned();
                out.append(bracketed_text(min, max).as_str());
                out.append(" B");
                out
            },
        }
    }
}

// ---------------------------------------------------------------------------
// Reading back
// ---------------------------------------------------------------------------

/// A number as it is typed means that number.
proof fn lemma_index_reads_back(n: usize, flag: Seq<char>)
    ensures
        index_meant(text::decimal(n as nat), flag) == Ok::<usize, Seq<char>>(n),
{
    text::law_decimal_reads_back(n as nat);
    text::lemma_digits_are_a_word(text::decimal(n as nat));
    text::lemma_trimmed_word(text::decimal(n as nat));
}

/// A character of a number or of a list of numbers.
spec fn listed(c: char) -> bool {
    text::is_digit(c) || c == ','
}

proof fn lemma_range_reads_back(min: usize, max: usize, flag: Seq<char>)
    requires
        min <= max,
    ensures
        uniform_range_meant(bracketed(min, max), flag) == Ok::<Option<(usize, usize)>, Seq<char>>(
            Some((min, max)),
        ),
{
    let low = text::decimal(min as nat);
    let high = text::decimal(max as nat);
    let given = bracketed(min, max);
    reveal_strlit("[");
    reveal_strlit(",");
    reveal_strlit("]");
    text::law_decimal_reads_back(min as nat);
    text::law_decimal_reads_back(max as nat);
    let inside = low + seq![','] + high;
    assert(","@ =~= seq![',']);
    assert(given =~= seq!['['] + inside + seq![']']);
    assert(text::one_word(given)) by {
        assert forall|i: int| 0 <= i < given.len() implies !text::white_space(#[trigger] given[i]) by {
            if 0 < i <= low.len() {
                assert(text::is_digit(low[i - 1]));
            } else if low.len() + 1 < i < given.len() - 1 {
                assert(text::is_digit(high[i - low.len() - 2]));
            }
        }
    }
    text::lemma_trimmed_word(given);
    assert(given[0] == '[');
    assert(given.contains('['));
    assert(given.subrange(1, given.len() - 1) =~= inside);
    lemma_no_comma(low);
    lemma_no_comma(high);
    text::lemma_piece(low, ',');
    text::lemma_piece(high, ',');
    text::lemma_pieces_apart(low, high, ',');
    assert(seq![low] + seq![high] =~= seq![low, high]);
    lemma_index_reads_back(min, flag);
    lemma_index_reads_back(max, flag);
}

proof fn lemma_no_comma(digits: Seq<char>)
    requires
        text::all_digits(digits),
    ensures
        !digits.contains(','),
{
    assert forall|i: int| 0 <= i < digits.len() implies digits[i] != ',' by {
        assert(text::is_digit(digits[i]));
    }
}

proof fn lemma_list_reads_back(sizes: Seq<usize>, flag: Seq<char>)
    ensures
        indices_meant(decimals(sizes), flag) == Ok::<Seq<usize>, Seq<char>>(sizes),
    decreases sizes.len(),
{
    if sizes.len() == 0 {
        assert(sizes =~= Seq::<usize>::empty());
    } else {
        let front = sizes.drop_last();
        lemma_list_reads_back(front, flag);
        lemma_index_reads_back(sizes.last(), flag);
        assert(decimals(sizes).drop_last() =~= decimals(front));
        assert(decimals(sizes).last() == text::decimal(sizes.last() as nat));
        assert(front.push(sizes.last()) =~= sizes);
    }
}

proof fn lemma_list_characters(sizes: Seq<usize>)
    ensures
        forall|i: int|
            0 <= i < text::joined(decimals(sizes), seq![',']).len() ==> listed(
                #[trigger] text::joined(decimals(sizes), seq![','])[i],
            ),
    decreases sizes.len(),
{
    let shown = text::joined(decimals(sizes), seq![',']);
    if sizes.len() > 0 {
        let last = text::decimal(sizes.last() as nat);
        text::law_decimal_reads_back(sizes.last() as nat);
        assert(decimals(sizes).last() == last);
        if sizes.len() == 1 {
            assert forall|i: int| 0 <= i < shown.len() implies listed(#[trigger] shown[i]) by {
                assert(text::is_digit(last[i]));
            }
        } else {
            let front = sizes.drop_last();
            lemma_list_characters(front);
            assert(decimals(sizes).drop_last() =~= decimals(front));
            let before = text::joined(decimals(front), seq![',']);
            assert(shown == before + seq![','] + last);
            assert forall|i: int| 0 <= i < shown.len() implies listed(#[trigger] shown[i]) by {
                if i < before.len() {
                    assert(listed(before[i]));
                } else if i > before.len() {
                    assert(text::is_digit(last[i - before.len() - 1]));
                }
            }
        }
    }
}

/// A step size that is written out and read again is the same step size.
pub proof fn law_step_size_reads_back(step: StepSize)
    requires
        step.wf(),
    ensures
        step_size_meant(step.typed()) == Ok::<StepSize, Seq<char>>(step),
{
    match step {
        StepSize::Fixed(step) => {
            let given = text::decimal(step as nat);
            text::law_decimal_reads_back(step as nat);
            text::lemma_digits_are_a_word(given);
            text::lemma_trimmed_word(given);
            assert forall|i: int| 0 <= i < given.len() implies given[i] != '[' && given[i]
                != ']' by {
                assert(text::is_digit(given[i]));
            }
            lemma_index_reads_back(step, "--step-size"@);
        },
        StepSize::UniformRange { min, max } => {
            lemma_range_reads_back(min, max, "--step-size"@);
        },
    }
}

/// Payload sizes that are written out mean the same sizes: a range means its bounds, and a list means
/// its numbers, one by one.
pub proof fn law_payload_sizes_read_back(sizes: PayloadSizes, flag: Seq<char>)
    requires
        sizes.wf(),
        sizes.sources() > 0,
    ensures
        match sizes {
            PayloadSizes::UniformRange { min, max } => uniform_range_meant(sizes.typed(), flag)
                == Ok::<Option<(usize, usize)>, Seq<char>>(Some((min, max))),
            PayloadSizes::Fixed(list) => {
                &&& uniform_range_meant(sizes.typed(), flag) == Ok::<
                    Option<(usize, usize)>,
                    Seq<char>,
                >(None)
                &&& indices_meant(text::pieces(sizes.typed(), ','), flag) == Ok::<
                    Seq<usize>,
                    Seq<char>,
                >(list@)
            },
        },
{
    match sizes {
        PayloadSizes::UniformRange { min, max } => {
            lemma_range_reads_back(min, max, flag);
        },
        PayloadSizes::Fixed(list) => {
            reveal_strlit(",");
            assert(","@ =~= seq![',']);
            let given = text::joined(decimals(list@), seq![',']);
            lemma_list_characters(list@);
            assert(text::one_word(given)) by {
                assert forall|i: int| 0 <= i < given.len() implies !text::white_space(
                    #[trigger] given[i],
                ) by {
                    assert(listed(given[i]));
                }
            }
            text::lemma_trimmed_word(given);
            assert forall|i: int| 0 <= i < given.len() implies given[i] != '[' && given[i]
                != ']' by {
                assert(listed(given[i]));
            }
            assert forall|i: int| 0 <= i < decimals(list@).len() implies !(#[trigger] decimals(
                list@,
            )[i]).contains(',') by {
                text::law_decimal_reads_back(list@[i] as nat);
                lemma_no_comma(decimals(list@)[i]);
            }
            text::lemma_pieces_joined(decimals(list@), ',');
            lemma_list_reads_back(list@, flag);
        },
    }
}

/// The name of an order of plateaus means that order.
pub proof fn law_plateau_order_reads_back(order: PlateauOrder)
    ensures
        plateau_order_meant(order.name()) == Ok::<PlateauOrder, Seq<char>>(order),
{
    reveal_strlit("staircase");
    reveal_strlit("ascending");
    reveal_strlit("asc");
    reveal_strlit("randomized");
    reveal_strlit("random");
    let name = order.name();
    assert(text::one_word(name));
    text::lemma_trimmed_word(name);
    assert(text::lowered(name) =~= name);
    assert("staircase"@[0] == 's');
    assert("ascending"@[0] == 'a');
    assert("asc"@[0] == 'a');
    assert("randomized"@[0] == 'r');
}

} // verus!
