//! The errors of the engine and their wording.

use vstd::prelude::*;
use vstd::string::*;

verus! {

/// Why an operation of the engine failed.
#[derive(Debug, Clone)]
pub enum EngineError {
    /// A path that the operation needs is not configured; names the setting.
    NotConfigured(String),
    /// A model or file that the operation refers to does not exist.
    NotFound(String),
    /// Reading, writing or copying failed; carries the system's message.
    IOFailure(String),
    /// A copy was refused for lack of space. `required` is the size of the
    /// file with its safety margin, `available` the free space, in bytes.
    InsufficientSpace { required: u64, available: u64 },
    /// The checksum of a copy differed from that of its source. The copy was
    /// removed.
    IntegrityFailure,
    /// The destination of an unconditional copy exists already.
    Conflict(String),
    /// A manifest or list could not be read.
    ManifestParseFailure(String),
}

/// An error as mathematical values.
pub enum ErrorView {
    NotConfigured(Seq<char>),
    NotFound(Seq<char>),
    IOFailure(Seq<char>),
    InsufficientSpace { required: u64, available: u64 },
    IntegrityFailure,
    Conflict(Seq<char>),
    ManifestParseFailure(Seq<char>),
}

impl View for EngineError {
    type V = ErrorView;

    open spec fn view(&self) -> ErrorView {
        match self {
            EngineError::NotConfigured(what) => ErrorView::NotConfigured(what@),
            EngineError::NotFound(what) => ErrorView::NotFound(what@),
            EngineError::IOFailure(reason) => ErrorView::IOFailure(reason@),
            EngineError::InsufficientSpace { required, available } => ErrorView::InsufficientSpace {
                required: *required,
                available: *available,
            },
            EngineError::IntegrityFailure => ErrorView::IntegrityFailure,
            EngineError::Conflict(what) => ErrorView::Conflict(what@),
            EngineError::ManifestParseFailure(reason) => ErrorView::ManifestParseFailure(reason@),
        }
    }
}

/// The character of a decimal digit.
pub open spec fn digit_char(digit: int) -> char {
    seq!['0', '1', '2', '3', '4', '5', '6', '7', '8', '9'][digit]
}

/// The decimal digits of a number, without leading zeros.
pub open spec fn decimal_digits(n: nat) -> Seq<char>
    decreases n,
{
    if n < 10 {
        seq![digit_char(n as int)]
    } else {
        decimal_digits(n / 10).push(digit_char((n % 10) as int))
    }
}

/// The number of bytes in a gigabyte, as sizes are reported.
pub open spec fn gigabyte() -> int {
    0x4000_0000
}

/// A size in gigabytes with two decimals, cut off after the second: the
/// digits of the whole gigabytes, a point, two digits, and the unit.
pub open spec fn gigabytes_text(bytes: u64) -> Seq<char> {
    let whole = bytes as int / gigabyte();
    let hundredths = (bytes as int % gigabyte()) * 100 / gigabyte();
    decimal_digits(whole as nat) + seq!['.'] + seq![
        digit_char(hundredths / 10),
        digit_char(hundredths % 10),
    ] + " GB"@
}

/// The wording of an error.
pub open spec fn message_of(error: ErrorView) -> Seq<char> {
    match error {
        ErrorView::NotConfigured(what) => what + " not configured"@,
        ErrorView::NotFound(what) => "Not found: "@ + what,
        ErrorView::IOFailure(reason) => "I/O failure: "@ + reason,
        ErrorView::InsufficientSpace { required, available } => "Insufficient disk space. Required: "@
            + gigabytes_text(required) + ", Available: "@ + gigabytes_text(available),
        ErrorView::IntegrityFailure => "Checksum verification failed - copy corrupted"@,
        ErrorView::Conflict(what) => "File already exists in stash: "@ + what,
        ErrorView::ManifestParseFailure(reason) => "Manifest could not be read: "@ + reason,
    }
}

/// The text of one decimal digit.
fn digit_text(digit: u64) -> (text: &'static str)
    requires
        digit < 10,
    ensures
        text@ == seq![digit_char(digit as int)],
{
    proof {
        reveal_strlit("0");
        reveal_strlit("1");
        reveal_strlit("2");
        reveal_strlit("3");
        reveal_strlit("4");
        reveal_strlit("5");
        reveal_strlit("6");
        reveal_strlit("7");
        reveal_strlit("8");
        reveal_strlit("9");
    }
    let text: &'static str = if digit == 0 {
        "0"
    } else if digit == 1 {
        "1"
    } else if digit == 2 {
        "2"
    } else if digit == 3 {
        "3"
    } else if digit == 4 {
        "4"
    } else if digit == 5 {
        "5"
    } else if digit == 6 {
        "6"
    } else if digit == 7 {
        "7"
    } else if digit == 8 {
        "8"
    } else {
        "9"
    };
    assert(text@ =~= seq![digit_char(digit as int)]);
    text
}

/// Writes a number in decimal.
pub fn decimal_text(n: u64) -> (text: String)
    ensures
        text@ == decimal_digits(n as nat),
    decreases n,
{
    if n < 10 {
        digit_text(n).to_string()
    } else {
        let mut text: String = decimal_text(n / 10);
        text.append(digit_text(n % 10));
        text
    }
}

/// Writes a size in gigabytes with two decimals.
pub fn gigabytes(bytes: u64) -> (text: String)
    ensures
        text@ == gigabytes_text(bytes),
{
    let whole: u64 = bytes / 0x4000_0000;
    let rest: u64 = bytes % 0x4000_0000;
    let hundredths: u64 = rest * 100 / 0x4000_0000;
    let mut text: String = decimal_text(whole);
    proof {
        reveal_strlit(".");
    }
    text.append(".");
    text.append(digit_text(hundredths / 10));
    text.append(digit_text(hundredths % 10));
    text.append(" GB");
    assert(text@ =~= gigabytes_text(bytes));
    text
}

impl EngineError {
    /// The wording of the error, sizes in gigabytes.
    pub fn message(&self) -> (text: String)
        ensures
            text@ == message_of(self@),
    {
        match self {
            EngineError::NotConfigured(what) => what.clone().concat(" not configured"),
            EngineError::NotFound(what) => "Not found: ".to_string().concat(what.as_str()),
            EngineError::IOFailure(reason) => "I/O failure: ".to_string().concat(reason.as_str()),
            EngineError::InsufficientSpace { required, available } => {
                let text: String = "Insufficient disk space. Required: ".to_string().concat(
                    gigabytes(*required).as_str(),
                ).concat(", Available: ").concat(gigabytes(*available).as_str());
                text
            },
            EngineError::IntegrityFailure => "Checksum verification failed - copy corrupted".to_string(),
            EngineError::Conflict(what) => "File already exists in stash: ".to_string().concat(
                what.as_str(),
            ),
            EngineError::ManifestParseFailure(reason) => "Manifest could not be read: ".to_string().concat(
                reason.as_str(),
            ),
        }
    }

    /// A copy of the error.
    pub fn duplicate(&self) -> (copy: EngineError)
        ensures
            copy@ == self@,
    {
        match self {
            EngineError::NotConfigured(what) => EngineError::NotConfigured(what.clone()),
            EngineError::NotFound(what) => EngineError::NotFound(what.clone()),
            EngineError::IOFailure(reason) => EngineError::IOFailure(reason.clone()),
            EngineError::InsufficientSpace { required, available } => EngineError::InsufficientSpace {
                required: *required,
                available: *available,
            },
            EngineError::IntegrityFailure => EngineError::IntegrityFailure,
            EngineError::Conflict(what) => EngineError::Conflict(what.clone()),
            EngineError::ManifestParseFailure(reason) => EngineError::ManifestParseFailure(
                reason.clone(),
            ),
        }
    }
}

} // verus!
