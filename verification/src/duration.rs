//! How long collection may run.
use vstd::prelude::*;

verus! {

/// Why a duration text was refused, one case per error of the parser.
#[derive(Clone, Copy, Debug, PartialEq, Eq)]
pub enum DurationError {
    /// The text is not made of `<number><unit>` groups with a known unit.
    Format,
    /// The duration is too large.
    Overflow,
    /// A number does not read as an unsigned integer.
    ParseInt,
}

/// Whether `duration_string` reads the text as a duration.
pub uninterp spec fn duration_text_accepted(text: Seq<char>) -> bool;

/// The duration that `duration_string` reads from an accepted text, as whole
/// seconds and the nanoseconds beyond them.
pub uninterp spec fn duration_text_value(text: Seq<char>) -> (u64, u32);

/// The error that `duration_string` gives for a text that it refuses.
pub uninterp spec fn duration_text_error(text: Seq<char>) -> DurationError;

/// The text that `duration_string` prints for a duration.
pub uninterp spec fn duration_display(secs: u64, nanos: u32) -> Seq<char>;

/// Reads a duration such as `1m` or `1h30m`.
///
/// Trusted: calls `DurationString::try_from(String)` of `duration_string`,
/// whose outcome depends on the text alone, and splits the duration read
/// into whole seconds and the nanoseconds beyond them (which std documents
/// as less than one billion); the contract names that outcome and does not
/// spell out the accepted syntax.
#[verifier::external_body]
fn parse_duration(text: String) -> (res: Result<(u64, u32), DurationError>)
    ensures
        match res {
            Ok(v) => duration_text_accepted(text@) && v == duration_text_value(text@) && v.1
                < 1_000_000_000,
            Err(e) => !duration_text_accepted(text@) && e == duration_text_error(text@),
        },
{
    match duration_string::DurationString::try_from(text) {
        Ok(d) => {
            let d: std::time::Duration = d.into();
            Ok((d.as_secs(), d.subsec_nanos()))
        },
        Err(duration_string::Error::Format) => Err(DurationError::Format),
        Err(duration_string::Error::Overflow) => Err(DurationError::Overflow),
        Err(duration_string::Error::ParseInt(_)) => Err(DurationError::ParseInt),
    }
}

/// The duration as `duration_string` prints it (such as `1m`).
///
/// Trusted: formats `DurationString::from(Duration::new(secs, nanos))` with
/// its `Display`, whose text depends on the duration alone; the contract
/// names that text.
#[verifier::external_body]
fn duration_text(secs: u64, nanos: u32) -> (s: String)
    requires
        nanos < 1_000_000_000,
    ensures
        s@ == duration_display(secs, nanos),
{
    format!("{}", duration_string::DurationString::from(std::time::Duration::new(secs, nanos)))
}

/// How long collection may run before it is stopped.
#[derive(Clone, Copy, Debug)]
pub struct RunDuration {
    secs: u64,
    nanos: u32,
}

impl View for RunDuration {
    /// Whole seconds, and the nanoseconds beyond them.
    type V = (u64, u32);

    closed spec fn view(&self) -> (u64, u32) {
        (self.secs, self.nanos)
    }
}

impl RunDuration {
    /// The nanoseconds part is below one second.
    #[verifier::type_invariant]
    spec fn well_formed(self) -> bool {
        self.nanos < 1_000_000_000
    }

    /// Reads a run duration such as `1m`.
    pub fn try_from(value: String) -> (res: Result<RunDuration, DurationError>)
        ensures
            match res {
                Ok(d) => duration_text_accepted(value@) && d@ == duration_text_value(value@),
                Err(e) => !duration_text_accepted(value@) && e == duration_text_error(value@),
            },
    {
        match parse_duration(value) {
            Ok((secs, nanos)) => Ok(RunDuration { secs, nanos }),
            Err(error) => Err(error),
        }
    }

    /// Sixty seconds.
    pub fn default() -> (res: RunDuration)
        ensures
            res@ == (60u64, 0u32),
    {
        RunDuration { secs: 60, nanos: 0 }
    }

    /// Whole seconds of the duration.
    pub fn secs(&self) -> (s: u64)
        ensures
            s == self@.0,
    {
        self.secs
    }

    /// Nanoseconds beyond the whole seconds.
    pub fn subsec_nanos(&self) -> (n: u32)
        ensures
            n == self@.1,
            n < 1_000_000_000,
    {
        proof {
            use_type_invariant(self);
        }
        self.nanos
    }

    /// The duration as `duration_string` prints it.
    pub fn to_string(&self) -> (s: String)
        ensures
            s@ == duration_display(self@.0, self@.1),
    {
        proof {
            use_type_invariant(self);
        }
        duration_text(self.secs, self.nanos)
    }
}

} // verus!
