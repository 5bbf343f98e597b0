//! Sentences that describe failures to a reader.
use vstd::prelude::*;
use vstd::string::*;

use crate::blocking::{BlockingManagedJoinError, BlockingManagedStartError};
use crate::driver;
use crate::model::{
    ManagedCommandApplyError, ManagedCommandError, ManagedConfigError, ManagedDriverFailure,
    ManagedSubscribeError,
};
use crate::text::{
    decimal, digit_char, digit_of, ends_with, lemma_ends_with, number_of, push_decimal, push_digit,
};
use crate::timing::{Duration, MAX_DURATION_NANOS, NANOS_PER_SEC};

verus! {

pub open spec fn pow10(n: nat) -> nat
    decreases n,
{
    if n == 0 {
        1
    } else {
        10 * pow10((n - 1) as nat)
    }
}

/// The digits of a fraction of `rest` parts in `pow10(width)`, up to the last
/// that is not zero.
pub open spec fn fraction(rest: nat, width: nat) -> Seq<char>
    decreases width,
{
    if rest == 0 || width == 0 {
        Seq::empty()
    } else {
        let unit = pow10((width - 1) as nat);
        seq![digit_char(rest / unit)] + fraction(rest % unit, (width - 1) as nat)
    }
}

/// `whole` with a fraction of `rest` parts in `pow10(width)`.
pub open spec fn fixed_point(whole: nat, rest: nat, width: nat) -> Seq<char> {
    if rest == 0 {
        decimal(whole)
    } else {
        decimal(whole) + "."@ + fraction(rest, width)
    }
}

fn push_fraction(out: &mut String, rest: u64, width: u32, unit: u64)
    requires
        width > 0 ==> unit == pow10((width - 1) as nat),
        rest < pow10(width as nat),
    ensures
        final(out)@ == old(out)@ + fraction(rest as nat, width as nat),
    decreases width,
{
    if rest == 0 || width == 0 {
        assert(out@ =~= old(out)@ + fraction(rest as nat, width as nat));
        return;
    }
    proof {
        lemma_pow10_positive((width - 1) as nat);
        assert(rest < 10 * unit);
        assert((rest as int) / (unit as int) < 10) by (nonlinear_arith)
            requires
                0 <= rest < 10 * unit,
                unit > 0,
        ;
        if width > 1 {
            assert(pow10((width - 1) as nat) == 10 * pow10((width - 2) as nat));
        }
    }
    push_digit(out, rest / unit);
    push_fraction(out, rest % unit, width - 1, unit / 10);
    assert(out@ =~= old(out)@ + fraction(rest as nat, width as nat));
}

proof fn lemma_pow10_positive(n: nat)
    ensures
        pow10(n) > 0,
    decreases n,
{
    if n > 0 {
        lemma_pow10_positive((n - 1) as nat);
    }
}

fn push_fixed_point(out: &mut String, whole: u64, rest: u64, width: u32, unit: u64)
    requires
        width > 0 ==> unit == pow10((width - 1) as nat),
        rest < pow10(width as nat),
    ensures
        final(out)@ == old(out)@ + fixed_point(whole as nat, rest as nat, width as nat),
{
    push_decimal(out, whole);
    if rest > 0 {
        out.append(".");
        push_fraction(out, rest, width, unit);
    }
    assert(out@ =~= old(out)@ + fixed_point(whole as nat, rest as nat, width as nat));
}

impl Duration {
    /// The span in its largest unit that makes the whole part positive.
    pub open spec fn text(self) -> Seq<char> {
        let nanos = self.nanos as nat;
        if nanos >= 1_000_000_000 {
            fixed_point(nanos / 1_000_000_000, nanos % 1_000_000_000, 9) + "s"@
        } else if nanos >= 1_000_000 {
            fixed_point(nanos / 1_000_000, nanos % 1_000_000, 6) + "ms"@
        } else if nanos >= 1_000 {
            fixed_point(nanos / 1_000, nanos % 1_000, 3) + "µs"@
        } else {
            fixed_point(nanos, 0, 0) + "ns"@
        }
    }

    pub fn to_text(&self) -> (result: String)
        requires
            self.nanos <= MAX_DURATION_NANOS,
        ensures
            result@ == self.text(),
    {
        proof {
            reveal_with_fuel(pow10, 10);
        }
        let mut result = String::from_str("");
        proof {
            reveal_strlit("");
        }
        if self.nanos >= NANOS_PER_SEC {
            let whole: u64 = (self.nanos / NANOS_PER_SEC) as u64;
            let rest: u64 = (self.nanos % NANOS_PER_SEC) as u64;
            push_fixed_point(&mut result, whole, rest, 9, 100_000_000);
            result.append("s");
        } else {
            let nanos: u64 = self.nanos as u64;
            if nanos >= 1_000_000 {
                push_fixed_point(&mut result, nanos / 1_000_000, nanos % 1_000_000, 6, 100_000);
                result.append("ms");
            } else if nanos >= 1_000 {
                push_fixed_point(&mut result, nanos / 1_000, nanos % 1_000, 3, 100);
                result.append("µs");
            } else {
                push_fixed_point(&mut result, nanos, 0, 0, 1);
                result.append("ns");
            }
        }
        assert(result@ =~= self.text());
        result
    }
}

impl ManagedDriverFailure {
    pub open spec fn text(self) -> Seq<char> {
        match self {
            ManagedDriverFailure::NoTokioRuntime =>
                "ManagedClientTask requires a current Tokio runtime"@,
            ManagedDriverFailure::ResourceExhausted { operation } =>
                "managed driver exhausted resources for "@ + operation@,
            ManagedDriverFailure::Internal { message } => "managed driver invariant failed: "@
                + message@,
        }
    }

    pub fn to_text(&self) -> (result: String)
        ensures
            result@ == self.text(),
    {
        match self {
            ManagedDriverFailure::NoTokioRuntime => String::from_str(
                "ManagedClientTask requires a current Tokio runtime",
            ),
            ManagedDriverFailure::ResourceExhausted { operation } => {
                let mut result = String::from_str("managed driver exhausted resources for ");
                result.append(operation);
                result
            },
            ManagedDriverFailure::Internal { message } => {
                let mut result = String::from_str("managed driver invariant failed: ");
                result.append(message.as_str());
                result
            },
        }
    }
}

impl ManagedConfigError {
    pub open spec fn text(self) -> Seq<char> {
        match self {
            ManagedConfigError::EmptyInitialTargets =>
                "FinishWhenQuiescent requires at least one initial target"@,
            ManagedConfigError::DuplicateTargetId { id } => "duplicate managed target id "@ + id@,
            ManagedConfigError::TooManyTargets { configured, limit } => "configured "@
                + decimal(configured as nat) + " targets exceeds live-generation limit "@
                + decimal(limit as nat),
            ManagedConfigError::ZeroEventCapacity =>
                "managed event capacity must be greater than zero"@,
            ManagedConfigError::EventCapacityTooLarge { configured, maximum } =>
                "managed event capacity "@ + decimal(configured as nat)
                + " exceeds Tokio's maximum "@ + decimal(maximum as nat),
            ManagedConfigError::ZeroCommandCapacity =>
                "managed command capacity must be greater than zero"@,
            ManagedConfigError::CommandCapacityTooLarge { configured, maximum } =>
                "managed command capacity "@ + decimal(configured as nat)
                + " exceeds Tokio's maximum "@ + decimal(maximum as nat),
            ManagedConfigError::ZeroLiveGenerationLimit =>
                "managed live-generation limit must be greater than zero"@,
            ManagedConfigError::UnschedulableFinalDrain { duration } => "managed final drain "@
                + duration.text() + " cannot be scheduled from the current instant"@,
            ManagedConfigError::InvalidTarget { id, source } => "invalid managed target "@ + id@
                + ": "@ + source.text(),
            ManagedConfigError::GenerationExhausted =>
                "managed target generation space is exhausted"@,
        }
    }

    pub fn to_text(&self) -> (result: String)
        requires
            self matches ManagedConfigError::UnschedulableFinalDrain { duration } ==> duration.nanos
                <= MAX_DURATION_NANOS,
        ensures
            result@ == self.text(),
    {
        match self {
            ManagedConfigError::EmptyInitialTargets => String::from_str(
                "FinishWhenQuiescent requires at least one initial target",
            ),
            ManagedConfigError::DuplicateTargetId { id } => {
                let mut result = String::from_str("duplicate managed target id ");
                result.append(id.as_str());
                result
            },
            ManagedConfigError::TooManyTargets { configured, limit } => {
                let mut result = String::from_str("configured ");
                push_decimal(&mut result, *configured as u64);
                result.append(" targets exceeds live-generation limit ");
                push_decimal(&mut result, *limit as u64);
                result
            },
            ManagedConfigError::ZeroEventCapacity => String::from_str(
                "managed event capacity must be greater than zero",
            ),
            ManagedConfigError::EventCapacityTooLarge { configured, maximum } => {
                let mut result = String::from_str("managed event capacity ");
                push_decimal(&mut result, *configured as u64);
                result.append(" exceeds Tokio's maximum ");
                push_decimal(&mut result, *maximum as u64);
                result
            },
            ManagedConfigError::ZeroCommandCapacity => String::from_str(
                "managed command capacity must be greater than zero",
            ),
            ManagedConfigError::CommandCapacityTooLarge { configured, maximum } => {
                let mut result = String::from_str("managed command capacity ");
                push_decimal(&mut result, *configured as u64);
                result.append(" exceeds Tokio's maximum ");
                push_decimal(&mut result, *maximum as u64);
                result
            },
            ManagedConfigError::ZeroLiveGenerationLimit => String::from_str(
                "managed live-generation limit must be greater than zero",
            ),
            ManagedConfigError::UnschedulableFinalDrain { duration } => {
                let mut result = String::from_str("managed final drain ");
                result.append(duration.to_text().as_str());
                result.append(" cannot be scheduled from the current instant");
                result
            },
            ManagedConfigError::InvalidTarget { id, source } => {
                let mut result = String::from_str("invalid managed target ");
                result.append(id.as_str());
                result.append(": ");
                result.append(source.to_text().as_str());
                result
            },
            ManagedConfigError::GenerationExhausted => String::from_str(
                "managed target generation space is exhausted",
            ),
        }
    }
}

impl ManagedCommandError {
    pub open spec fn text(self) -> Seq<char> {
        match self {
            ManagedCommandError::Stopping => "managed target updates are no longer accepted"@,
            ManagedCommandError::TooManyTargets { configured, limit } =>
                "managed target update contains "@ + decimal(configured as nat)
                + " targets but the limit is "@ + decimal(limit as nat),
            ManagedCommandError::QueueFull => "managed command queue is full"@,
            ManagedCommandError::DriverClosed => "managed command receiver is closed"@,
        }
    }

    pub fn to_text(&self) -> (result: String)
        ensures
            result@ == self.text(),
    {
        match self {
            ManagedCommandError::Stopping => String::from_str(
                "managed target updates are no longer accepted",
            ),
            ManagedCommandError::TooManyTargets { configured, limit } => {
                let mut result = String::from_str("managed target update contains ");
                push_decimal(&mut result, *configured as u64);
                result.append(" targets but the limit is ");
                push_decimal(&mut result, *limit as u64);
                result
            },
            ManagedCommandError::QueueFull => String::from_str("managed command queue is full"),
            ManagedCommandError::DriverClosed => String::from_str(
                "managed command receiver is closed",
            ),
        }
    }
}

impl ManagedCommandApplyError {
    pub open spec fn text(self) -> Seq<char> {
        match self {
            ManagedCommandApplyError::Stopping => "managed target updates are no longer accepted"@,
            ManagedCommandApplyError::DuplicateTargetId { id } => "duplicate target id "@ + id@,
            ManagedCommandApplyError::InvalidTarget { id, source } =>
                "invalid configuration for target "@ + id@ + ": "@ + source.text(),
            ManagedCommandApplyError::LiveGenerationLimitExceeded { required, limit } =>
                "target update requires "@ + decimal(required as nat)
                + " live generations but limit is "@ + decimal(limit as nat),
            ManagedCommandApplyError::GenerationExhausted =>
                "managed target generation space is exhausted"@,
            ManagedCommandApplyError::CommandSequenceExhausted =>
                "managed command sequence is exhausted"@,
            ManagedCommandApplyError::AcknowledgementDisconnected =>
                "managed task ended before command acknowledgement"@,
            ManagedCommandApplyError::DriverFailed(failure) =>
                "managed driver failed before command application: "@ + failure.text(),
        }
    }

    pub fn to_text(&self) -> (result: String)
        ensures
            result@ == self.text(),
    {
        match self {
            ManagedCommandApplyError::Stopping => String::from_str(
                "managed target updates are no longer accepted",
            ),
            ManagedCommandApplyError::DuplicateTargetId { id } => {
                let mut result = String::from_str("duplicate target id ");
                result.append(id.as_str());
                result
            },
            ManagedCommandApplyError::InvalidTarget { id, source } => {
                let mut result = String::from_str("invalid configuration for target ");
                result.append(id.as_str());
                result.append(": ");
                result.append(source.to_text().as_str());
                result
            },
            ManagedCommandApplyError::LiveGenerationLimitExceeded { required, limit } => {
                let mut result = String::from_str("target update requires ");
                push_decimal(&mut result, *required as u64);
                result.append(" live generations but limit is ");
                push_decimal(&mut result, *limit as u64);
                result
            },
            ManagedCommandApplyError::GenerationExhausted => String::from_str(
                "managed target generation space is exhausted",
            ),
            ManagedCommandApplyError::CommandSequenceExhausted => String::from_str(
                "managed command sequence is exhausted",
            ),
            ManagedCommandApplyError::AcknowledgementDisconnected => String::from_str(
                "managed task ended before command acknowledgement",
            ),
            ManagedCommandApplyError::DriverFailed(failure) => {
                let mut result = String::from_str("managed driver failed before command application: ");
                result.append(failure.to_text().as_str());
                result
            },
        }
    }
}

impl ManagedSubscribeError {
    pub open spec fn text(self) -> Seq<char> {
        match self {
            ManagedSubscribeError::Closed => "managed event stream is closed"@,
        }
    }

    pub fn to_text(&self) -> (result: String)
        ensures
            result@ == self.text(),
    {
        match self {
            ManagedSubscribeError::Closed => String::from_str("managed event stream is closed"),
        }
    }
}

impl driver::ManagedSubscribeError {
    pub open spec fn text(self) -> Seq<char> {
        match self {
            driver::ManagedSubscribeError::Closed => "managed event stream is closed"@,
        }
    }

    pub fn to_text(&self) -> (result: String)
        ensures
            result@ == self.text(),
    {
        match self {
            driver::ManagedSubscribeError::Closed => String::from_str(
                "managed event stream is closed",
            ),
        }
    }
}

impl driver::ManagedStartError {
    pub open spec fn text(self) -> Seq<char> {
        match self {
            driver::ManagedStartError::ThreadSpawn { message } =>
                "failed to spawn managed client worker: "@ + message@,
        }
    }

    pub fn to_text(&self) -> (result: String)
        ensures
            result@ == self.text(),
    {
        match self {
            driver::ManagedStartError::ThreadSpawn { message } => {
                let mut result = String::from_str("failed to spawn managed client worker: ");
                result.append(message.as_str());
                result
            },
        }
    }
}

impl driver::ManagedRunError {
    pub open spec fn text(self) -> Seq<char> {
        match self {
            driver::ManagedRunError::NoRuntime =>
                "ManagedClientTask was first polled without a current Tokio runtime"@,
            driver::ManagedRunError::RuntimeBuild { message } =>
                "failed to build managed client Tokio runtime: "@ + message@,
            driver::ManagedRunError::WorkerPanicked => "managed client worker thread panicked"@,
        }
    }

    pub fn to_text(&self) -> (result: String)
        ensures
            result@ == self.text(),
    {
        match self {
            driver::ManagedRunError::NoRuntime => String::from_str(
                "ManagedClientTask was first polled without a current Tokio runtime",
            ),
            driver::ManagedRunError::RuntimeBuild { message } => {
                let mut result = String::from_str("failed to build managed client Tokio runtime: ");
                result.append(message.as_str());
                result
            },
            driver::ManagedRunError::WorkerPanicked => String::from_str(
                "managed client worker thread panicked",
            ),
        }
    }
}

impl driver::ManagedCommandError {
    pub open spec fn text(self) -> Seq<char> {
        match self {
            driver::ManagedCommandError::Stopping => "managed client is stopping"@,
            driver::ManagedCommandError::QueueFull => "managed client command queue is full"@,
            driver::ManagedCommandError::DriverClosed => "managed client command channel is closed"@,
            driver::ManagedCommandError::AcknowledgementDisconnected =>
                "managed client command acknowledgement was disconnected"@,
        }
    }

    pub fn to_text(&self) -> (result: String)
        ensures
            result@ == self.text(),
    {
        match self {
            driver::ManagedCommandError::Stopping => String::from_str("managed client is stopping"),
            driver::ManagedCommandError::QueueFull => String::from_str(
                "managed client command queue is full",
            ),
            driver::ManagedCommandError::DriverClosed => String::from_str(
                "managed client command channel is closed",
            ),
            driver::ManagedCommandError::AcknowledgementDisconnected => String::from_str(
                "managed client command acknowledgement was disconnected",
            ),
        }
    }
}

impl BlockingManagedStartError {
    pub open spec fn text(self) -> Seq<char> {
        match self {
            BlockingManagedStartError::Config(source) => source.text(),
            BlockingManagedStartError::Runtime { source } =>
                "failed to create blocking managed Tokio runtime: "@ + source.message@,
            BlockingManagedStartError::ThreadSpawn { source } =>
                "failed to spawn blocking managed worker thread: "@ + source.message@,
        }
    }

    pub fn to_text(&self) -> (result: String)
        requires
            self matches BlockingManagedStartError::Config(
                ManagedConfigError::UnschedulableFinalDrain { duration },
            ) ==> duration.nanos <= MAX_DURATION_NANOS,
        ensures
            result@ == self.text(),
    {
        match self {
            BlockingManagedStartError::Config(source) => source.to_text(),
            BlockingManagedStartError::Runtime { source } => {
                let mut result = String::from_str("failed to create blocking managed Tokio runtime: ");
                result.append(source.message.as_str());
                result
            },
            BlockingManagedStartError::ThreadSpawn { source } => {
                let mut result = String::from_str("failed to spawn blocking managed worker thread: ");
                result.append(source.message.as_str());
                result
            },
        }
    }
}

impl BlockingManagedJoinError {
    pub open spec fn text(self) -> Seq<char> {
        match self {
            BlockingManagedJoinError::WorkerPanicked => "blocking managed worker thread panicked"@,
        }
    }

    pub fn to_text(&self) -> (result: String)
        ensures
            result@ == self.text(),
    {
        match self {
            BlockingManagedJoinError::WorkerPanicked => String::from_str(
                "blocking managed worker thread panicked",
            ),
        }
    }
}

proof fn lemma_pow10_adds(a: nat, b: nat)
    ensures
        pow10(a + b) == pow10(a) * pow10(b),
    decreases a,
{
    if a > 0 {
        lemma_pow10_adds((a - 1) as nat, b);
        let x = pow10((a - 1) as nat);
        let y = pow10(b);
        assert(pow10((a - 1 + b) as nat) == x * y);
        assert(10 * (x * y) == (10 * x) * y) by (nonlinear_arith);
    } else {
        assert(pow10(0) * pow10(b) == pow10(b)) by (nonlinear_arith)
            requires
                pow10(0) == 1,
        ;
    }
}

proof fn lemma_number_of_concat(a: Seq<char>, b: Seq<char>)
    ensures
        number_of(a + b, 10) == number_of(a, 10) * pow10(b.len()) + number_of(b, 10),
    decreases b.len(),
{
    let x = number_of(a, 10);
    if b.len() == 0 {
        assert(a + b =~= a);
        assert(x * 1 == x);
    } else {
        let rest = b.drop_last();
        assert((a + b).drop_last() =~= a + rest);
        assert((a + b).last() == b.last());
        lemma_number_of_concat(a, rest);
        let p = pow10(rest.len()) as int;
        let y = number_of(rest, 10);
        assert(pow10(b.len()) == 10 * p);
        assert((x * p + y) * 10 == x * (10 * p) + y * 10) by (nonlinear_arith);
        assert(number_of(a + b, 10) == number_of(a + rest, 10) * 10 + digit_of(b.last()));
        assert(number_of(b, 10) == y * 10 + digit_of(b.last()));
    }
}

/// The digits of a fraction read back as its parts once the zeros that were
/// left out are put behind them, and no zero could be left out that was not.
pub proof fn law_fraction_reads_back(rest: nat, width: nat)
    requires
        rest < pow10(width),
    ensures
        fraction(rest, width).len() <= width,
        number_of(fraction(rest, width), 10) * pow10(
            (width - fraction(rest, width).len()) as nat,
        ) == rest,
        rest > 0 ==> fraction(rest, width).len() > 0 && fraction(rest, width).last() != '0',
    decreases width,
{
    if rest > 0 && width > 0 {
        let unit = pow10((width - 1) as nat);
        lemma_pow10_positive((width - 1) as nat);
        let digit = rest / unit;
        let after = rest % unit;
        assert(digit < 10 && rest == digit * unit + after && after < unit) by (nonlinear_arith)
            requires
                0 <= rest < 10 * unit,
                unit > 0,
                digit == rest / unit,
                after == rest % unit,
        ;
        law_fraction_reads_back(after, (width - 1) as nat);
        let tail = fraction(after, (width - 1) as nat);
        let glyph = digit_char(digit);
        let head = seq![glyph];
        assert(fraction(rest, width) == head + tail);
        lemma_number_of_concat(head, tail);
        assert(head.drop_last() =~= Seq::<char>::empty());
        assert(head.last() == glyph);
        reveal_with_fuel(number_of, 2);
        assert(number_of(head, 10) == digit);
        let k = (width - 1 - tail.len()) as nat;
        lemma_pow10_adds(tail.len(), k);
        let p = pow10(tail.len()) as int;
        let q = pow10(k) as int;
        let y = number_of(tail, 10);
        assert((digit * p + y) * q == digit * (p * q) + y * q) by (nonlinear_arith);
        if after == 0 {
            assert(tail =~= Seq::<char>::empty());
            assert(digit > 0) by (nonlinear_arith)
                requires
                    rest > 0,
                    rest == digit * unit + after,
                    after == 0,
            ;
        }
    } else {
        assert(fraction(rest, width) =~= Seq::<char>::empty());
        assert(rest == 0);
        assert(number_of(Seq::<char>::empty(), 10) == 0);
    }
}

/// `number` writes `whole` and `part` in `pow10(width)`, with no more digits
/// behind the point than it takes.
pub open spec fn writes(number: Seq<char>, whole: nat, part: nat, width: nat) -> bool {
    if part == 0 {
        number == decimal(whole)
    } else {
        exists|digits: Seq<char>|
            {
                &&& 0 < digits.len() <= width
                &&& digits.last() != '0'
                &&& #[trigger] number_of(digits, 10) * pow10((width - digits.len()) as nat) == part
                &&& number == decimal(whole) + "."@ + digits
            }
    }
}

/// `text` writes `nanos` as a number of units of `pow10(width)` nanoseconds.
pub open spec fn measures(text: Seq<char>, nanos: nat, width: nat, unit: Seq<char>) -> bool {
    exists|number: Seq<char>, whole: nat, part: nat|
        {
            &&& #[trigger] writes(number, whole, part, width)
            &&& whole * pow10(width) + part == nanos
            &&& part < pow10(width)
            &&& text == number + unit
        }
}

/// A span is written to the nanosecond, in seconds, milliseconds, microseconds
/// or nanoseconds, the largest unit of which it has at least one.
pub proof fn law_span_is_written_exactly(span: Duration)
    ensures
        span.nanos >= 1_000_000_000 ==> measures(span.text(), span.nanos as nat, 9, "s"@),
        1_000_000 <= span.nanos < 1_000_000_000 ==> measures(
            span.text(),
            span.nanos as nat,
            6,
            "ms"@,
        ),
        1_000 <= span.nanos < 1_000_000 ==> measures(span.text(), span.nanos as nat, 3, "µs"@),
        span.nanos < 1_000 ==> measures(span.text(), span.nanos as nat, 0, "ns"@),
{
    reveal_with_fuel(pow10, 10);
    let nanos = span.nanos as nat;
    if nanos >= 1_000_000_000 {
        lemma_measures(nanos, 1_000_000_000, 9, "s"@);
    } else if nanos >= 1_000_000 {
        lemma_measures(nanos, 1_000_000, 6, "ms"@);
    } else if nanos >= 1_000 {
        lemma_measures(nanos, 1_000, 3, "µs"@);
    } else {
        lemma_measures(nanos, 1, 0, "ns"@);
    }
}

proof fn lemma_measures(nanos: nat, scale: nat, width: nat, unit: Seq<char>)
    requires
        scale > 0,
        scale == pow10(width),
    ensures
        measures(fixed_point(nanos / scale, nanos % scale, width) + unit, nanos, width, unit),
{
    let whole = nanos / scale;
    let part = nanos % scale;
    assert(whole * scale + part == nanos && part < scale) by (nonlinear_arith)
        requires
            scale > 0,
            whole == nanos / scale,
            part == nanos % scale,
    ;
    lemma_fixed_point_writes(whole, part, width);
    assert(writes(fixed_point(whole, part, width), whole, part, width));
}

proof fn lemma_fixed_point_writes(whole: nat, part: nat, width: nat)
    requires
        part < pow10(width),
    ensures
        writes(fixed_point(whole, part, width), whole, part, width),
{
    if part > 0 {
        law_fraction_reads_back(part, width);
        let digits = fraction(part, width);
        assert(number_of(digits, 10) * pow10((width - digits.len()) as nat) == part);
    }
}

/// What a sentence has to tell stands at its end: the target, the error, or the
/// limit that was exceeded.
pub proof fn law_sentences_tell_their_cause(
    config: ManagedConfigError,
    command: ManagedCommandError,
    apply: ManagedCommandApplyError,
    failure: ManagedDriverFailure,
)
    ensures
        config matches ManagedConfigError::DuplicateTargetId { id } ==> ends_with(
            config.text(),
            id@,
        ),
        config matches ManagedConfigError::TooManyTargets { configured, limit } ==> ends_with(
            config.text(),
            decimal(limit as nat),
        ),
        config matches ManagedConfigError::EventCapacityTooLarge { configured, maximum }
            ==> ends_with(config.text(), decimal(maximum as nat)),
        config matches ManagedConfigError::CommandCapacityTooLarge { configured, maximum }
            ==> ends_with(config.text(), decimal(maximum as nat)),
        config matches ManagedConfigError::InvalidTarget { id, source } ==> ends_with(
            config.text(),
            id@ + ": "@ + source.text(),
        ),
        command matches ManagedCommandError::TooManyTargets { configured, limit } ==> ends_with(
            command.text(),
            decimal(limit as nat),
        ),
        apply matches ManagedCommandApplyError::DuplicateTargetId { id } ==> ends_with(
            apply.text(),
            id@,
        ),
        apply matches ManagedCommandApplyError::InvalidTarget { id, source } ==> ends_with(
            apply.text(),
            id@ + ": "@ + source.text(),
        ),
        apply matches ManagedCommandApplyError::LiveGenerationLimitExceeded { required, limit }
            ==> ends_with(apply.text(), decimal(limit as nat)),
        apply matches ManagedCommandApplyError::DriverFailed(failure) ==> ends_with(
            apply.text(),
            failure.text(),
        ),
        failure matches ManagedDriverFailure::ResourceExhausted { operation } ==> ends_with(
            failure.text(),
            operation@,
        ),
        failure matches ManagedDriverFailure::Internal { message } ==> ends_with(
            failure.text(),
            message@,
        ),
{
    if let ManagedConfigError::DuplicateTargetId { id } = config {
        lemma_ends_with("duplicate managed target id "@, id@);
    }
    if let ManagedConfigError::TooManyTargets { configured, limit } = config {
        lemma_ends_with(
            "configured "@ + decimal(configured as nat)
                + " targets exceeds live-generation limit "@,
            decimal(limit as nat),
        );
    }
    if let ManagedConfigError::EventCapacityTooLarge { configured, maximum } = config {
        lemma_ends_with(
            "managed event capacity "@ + decimal(configured as nat) + " exceeds Tokio's maximum "@,
            decimal(maximum as nat),
        );
    }
    if let ManagedConfigError::CommandCapacityTooLarge { configured, maximum } = config {
        lemma_ends_with(
            "managed command capacity "@ + decimal(configured as nat)
                + " exceeds Tokio's maximum "@,
            decimal(maximum as nat),
        );
    }
    if let ManagedConfigError::InvalidTarget { id, source } = config {
        lemma_ends_with("invalid managed target "@, id@ + ": "@ + source.text());
        assert(config.text() =~= "invalid managed target "@ + (id@ + ": "@ + source.text()));
    }
    if let ManagedCommandError::TooManyTargets { configured, limit } = command {
        lemma_ends_with(
            "managed target update contains "@ + decimal(configured as nat)
                + " targets but the limit is "@,
            decimal(limit as nat),
        );
    }
    if let ManagedCommandApplyError::DuplicateTargetId { id } = apply {
        lemma_ends_with("duplicate target id "@, id@);
    }
    if let ManagedCommandApplyError::InvalidTarget { id, source } = apply {
        lemma_ends_with("invalid configuration for target "@, id@ + ": "@ + source.text());
        assert(apply.text() =~= "invalid configuration for target "@ + (id@ + ": "@
            + source.text()));
    }
    if let ManagedCommandApplyError::LiveGenerationLimitExceeded { required, limit } = apply {
        lemma_ends_with(
            "target update requires "@ + decimal(required as nat)
                + " live generations but limit is "@,
            decimal(limit as nat),
        );
    }
    if let ManagedCommandApplyError::DriverFailed(inner) = apply {
        lemma_ends_with("managed driver failed before command application: "@, inner.text());
    }
    if let ManagedDriverFailure::ResourceExhausted { operation } = failure {
        lemma_ends_with("managed driver exhausted resources for "@, operation@);
    }
    if let ManagedDriverFailure::Internal { message } = failure {
        lemma_ends_with("managed driver invariant failed: "@, message@);
    }
}

} // verus!
