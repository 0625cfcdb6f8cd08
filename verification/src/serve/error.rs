use vstd::prelude::*;

verus! {

/// Why serving a track or a request stopped.
#[derive(Debug, PartialEq, Eq)]
pub enum ServeError {
    Done,
    Cancel,
    Closed(u64),
    NotFound,
    Duplicate,
    Mode,
    Size,
    Internal(String),
    NotImplemented(String),
}

/// The error code sent for each error in per-request and per-track error messages.
pub open spec fn serve_error_code(e: ServeError) -> u64 {
    match e {
        ServeError::Done => 0,
        ServeError::Cancel => 1,
        ServeError::Closed(code) => code,
        ServeError::NotFound => 0x4,
        ServeError::Duplicate => 0x5,
        ServeError::Mode => 0x3,
        ServeError::Size => 0x3,
        ServeError::NotImplemented(_) => 0x3,
        ServeError::Internal(_) => 0x0,
    }
}

/// The character of a decimal digit.
pub open spec fn digit_char(d: int) -> char {
    if d == 0 {
        '0'
    } else if d == 1 {
        '1'
    } else if d == 2 {
        '2'
    } else if d == 3 {
        '3'
    } else if d == 4 {
        '4'
    } else if d == 5 {
        '5'
    } else if d == 6 {
        '6'
    } else if d == 7 {
        '7'
    } else if d == 8 {
        '8'
    } else {
        '9'
    }
}

/// A number written in decimal, with no leading zeros.
pub open spec fn decimal_text(n: nat) -> Seq<char>
    decreases n,
{
    if n < 10 {
        seq![digit_char(n as int)]
    } else {
        decimal_text(n / 10) + seq![digit_char((n % 10) as int)]
    }
}

/// The text of an error, as it is sent in a reason phrase.
pub open spec fn serve_error_text(e: ServeError) -> Seq<char> {
    match e {
        ServeError::Done => "done"@,
        ServeError::Cancel => "cancelled"@,
        ServeError::Closed(code) => "closed, code="@ + decimal_text(code as nat),
        ServeError::NotFound => "not found"@,
        ServeError::Duplicate => "duplicate"@,
        ServeError::Mode => "multiple stream modes"@,
        ServeError::Size => "wrong size"@,
        ServeError::Internal(s) => "internal error: "@ + s@,
        ServeError::NotImplemented(s) => "not implemented: "@ + s@,
    }
}

/// Appends the decimal digit `d`.
fn append_digit(s: &mut String, d: u64)
    requires
        d < 10,
    ensures
        final(s)@ == old(s)@ + seq![digit_char(d as int)],
{
    let t = if d == 0 {
        "0"
    } else if d == 1 {
        "1"
    } else if d == 2 {
        "2"
    } else if d == 3 {
        "3"
    } else if d == 4 {
        "4"
    } else if d == 5 {
        "5"
    } else if d == 6 {
        "6"
    } else if d == 7 {
        "7"
    } else if d == 8 {
        "8"
    } else {
        "9"
    };
    proof {
        reveal_strlit("0");
        reveal_strlit("1");
        reveal_strlit("2");
        reveal_strlit("3");
        reveal_strlit("4");
        reveal_strlit("5");
        reveal_strlit("6");
        reveal_strlit("7");
        reveal_strlit("8");
        reveal_strlit("9");
    }
    assert(t@ =~= seq![digit_char(d as int)]);
    s.append(t);
}

/// Appends `n` in decimal.
fn append_decimal(s: &mut String, n: u64)
    ensures
        final(s)@ == old(s)@ + decimal_text(n as nat),
    decreases n,
{
    if n >= 10 {
        append_decimal(s, n / 10);
    }
    append_digit(s, n % 10);
    assert(old(s)@ + decimal_text(n as nat) =~= if n >= 10 {
        old(s)@ + decimal_text((n / 10) as nat) + seq![digit_char((n % 10) as int)]
    } else {
        old(s)@ + seq![digit_char(n as int)]
    });
}

impl Clone for ServeError {
    fn clone(&self) -> (r: Self)
        ensures
            r == *self,
    {
        match self {
            ServeError::Done => ServeError::Done,
            ServeError::Cancel => ServeError::Cancel,
            ServeError::Closed(code) => ServeError::Closed(*code),
            ServeError::NotFound => ServeError::NotFound,
            ServeError::Duplicate => ServeError::Duplicate,
            ServeError::Mode => ServeError::Mode,
            ServeError::Size => ServeError::Size,
            ServeError::Internal(s) => ServeError::Internal(s.clone()),
            ServeError::NotImplemented(s) => ServeError::NotImplemented(s.clone()),
        }
    }
}

impl ServeError {
    /// The error code for per-request and per-track errors (as in SUBSCRIBE_ERROR,
    /// PUBLISH_DONE or FETCH_ERROR): a closing code passes through, a missing track is
    /// 0x4, a duplicate 0x5, what is not supported 0x3, an internal error 0x0.
    pub fn code(&self) -> (c: u64)
        ensures
            c == serve_error_code(*self),
    {
        match self {
            ServeError::Done => 0,
            ServeError::Cancel => 1,
            ServeError::Closed(code) => *code,
            ServeError::NotFound => 0x4,
            ServeError::Duplicate => 0x5,
            ServeError::Mode => 0x3,
            ServeError::Size => 0x3,
            ServeError::NotImplemented(_) => 0x3,
            ServeError::Internal(_) => 0x0,
        }
    }

    /// The text of the error, as sent in a reason phrase: `done`, `cancelled`, `closed,
    /// code=N`, `not found`, `duplicate`, `multiple stream modes`, `wrong size`,
    /// `internal error: ...` or `not implemented: ...`.
    pub fn to_string(&self) -> (t: String)
        ensures
            t@ == serve_error_text(*self),
    {
        let mut t = String::new();
        match self {
            ServeError::Done => t.append("done"),
            ServeError::Cancel => t.append("cancelled"),
            ServeError::Closed(code) => {
                t.append("closed, code=");
                append_decimal(&mut t, *code);
            },
            ServeError::NotFound => t.append("not found"),
            ServeError::Duplicate => t.append("duplicate"),
            ServeError::Mode => t.append("multiple stream modes"),
            ServeError::Size => t.append("wrong size"),
            ServeError::Internal(s) => {
                t.append("internal error: ");
                t.append(s.as_str());
            },
            ServeError::NotImplemented(s) => {
                t.append("not implemented: ");
                t.append(s.as_str());
            },
        }
        t
    }
}

} // verus!
