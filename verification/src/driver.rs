//! Pure decision logic of the command-line driver: classifying one trimmed
//! line of interactive input, and decoding a custom initial-state string.
//! Reading lines, printing, and cursor movement stay with the caller.

use vstd::prelude::*;

verus! {

/// ASCII code points the parser reads.
pub const ZERO: u8 = 48;

pub const NINE: u8 = 57;

pub const PLUS: u8 = 43;

pub const MINUS: u8 = 45;

pub const UPPER_A: u8 = 65;

pub const UPPER_Z: u8 = 90;

pub const LOWER_Q: u8 = 113;

pub const LOWER_U: u8 = 117;

pub const LOWER_I: u8 = 105;

pub const LOWER_T: u8 = 116;

/// What one trimmed line of interactive input asks for.
#[derive(Clone, Copy, PartialEq, Eq, Structural, Debug)]
pub enum Command {
    /// `q` or `quit`, case-insensitively: terminate.
    Quit,
    /// An empty line: advance exactly one generation, redrawing in place.
    Continue,
    /// A non-negative integer `n`: advance exactly `n` generations.
    Iterate(u32),
    /// Any other non-empty, non-numeric line: report usage, do not advance.
    Invalid,
    /// A negative number: report that the run cannot go backwards.
    Negative,
    /// A number too large for the iteration counter: report it.
    TooLarge,
}

/// An ASCII decimal digit.
pub open spec fn is_digit(b: u8) -> bool {
    ZERO <= b <= NINE
}

/// Every byte of `s` is an ASCII decimal digit.
pub open spec fn all_digits(s: Seq<u8>) -> bool {
    forall|i: int| 0 <= i < s.len() ==> is_digit(s[i])
}

/// The value of `s` read as a big-endian decimal numeral.
pub open spec fn digits_val(s: Seq<u8>) -> nat
    recommends
        all_digits(s),
    decreases s.len(),
{
    if s.len() == 0 {
        0
    } else {
        digits_val(s.drop_last()) * 10 + (s.last() - ZERO) as nat
    }
}

/// An ASCII upper-case letter folded to lower case; anything else unchanged.
pub open spec fn fold_lower(b: u8) -> u8 {
    if UPPER_A <= b <= UPPER_Z {
        (b + 32) as u8
    } else {
        b
    }
}

/// The line reads `q` or `quit` in any mixture of cases.
pub open spec fn is_quit_word(s: Seq<u8>) -> bool {
    ||| (s.len() == 1 && fold_lower(s[0]) == LOWER_Q)
    ||| (s.len() == 4 && fold_lower(s[0]) == LOWER_Q && fold_lower(s[1]) == LOWER_U && fold_lower(
        s[2],
    ) == LOWER_I && fold_lower(s[3]) == LOWER_T)
}

/// The digits of a numeral: an optional leading `+` sign is dropped.
pub open spec fn num_body(s: Seq<u8>) -> Seq<u8> {
    if s.len() > 0 && s[0] == PLUS {
        s.skip(1)
    } else {
        s
    }
}

/// The classification of one trimmed line of interactive input. An empty
/// line asks for a single step; `q`/`quit` end the run; a numeral (with an
/// optional `+` sign) asks for that many steps, or is too large past the
/// counter's range; a `-` sign followed by digits is a backwards request;
/// everything else is invalid.
pub open spec fn parse_command_spec(s: Seq<u8>) -> Command {
    if s.len() == 0 {
        Command::Continue
    } else if is_quit_word(s) {
        Command::Quit
    } else if num_body(s).len() > 0 && all_digits(num_body(s)) {
        if digits_val(num_body(s)) <= u32::MAX as nat {
            Command::Iterate(digits_val(num_body(s)) as u32)
        } else {
            Command::TooLarge
        }
    } else if s[0] == MINUS && s.len() > 1 && all_digits(s.skip(1)) {
        Command::Negative
    } else {
        Command::Invalid
    }
}

/// A longer numeral never has a smaller value: extending the digit range
/// `[a, p)` of `s` to `[a, q)` cannot decrease `digits_val`.
proof fn lemma_digits_val_extend_ge(s: Seq<u8>, a: int, p: int, q: int)
    requires
        0 <= a <= p <= q <= s.len(),
        forall|i: int| a <= i < q ==> is_digit(s[i]),
    ensures
        digits_val(s.subrange(a, p)) <= digits_val(s.subrange(a, q)),
    decreases q - p,
{
    if p < q {
        lemma_digits_val_extend_ge(s, a, p, q - 1);
        let shorter = s.subrange(a, q - 1);
        let longer = s.subrange(a, q);
        assert(longer.drop_last() =~= shorter);
        assert(digits_val(longer) == digits_val(shorter) * 10 + (longer.last() - ZERO) as nat);
    }
}

/// An ASCII upper-case letter folded to lower case; anything else unchanged.
fn lower_byte(b: u8) -> (r: u8)
    ensures
        r == fold_lower(b),
{
    if b >= UPPER_A && b <= UPPER_Z {
        b + 32
    } else {
        b
    }
}

/// Classifies one trimmed line of interactive input, exactly as
/// `parse_command_spec` reads it.
pub fn parse_command(line: &[u8]) -> (c: Command)
    ensures
        c == parse_command_spec(line@),
{
    let n = line.len();
    if n == 0 {
        return Command::Continue;
    }
    if n == 1 && lower_byte(line[0]) == LOWER_Q {
        return Command::Quit;
    }
    if n == 4 && lower_byte(line[0]) == LOWER_Q && lower_byte(line[1]) == LOWER_U && lower_byte(line[2])
        == LOWER_I && lower_byte(line[3]) == LOWER_T {
        return Command::Quit;
    }
    if line[0] == MINUS {
        proof {
            assert(!is_digit(line@[0]));
            assert(!all_digits(num_body(line@)));
        }
        if n == 1 {
            return Command::Invalid;
        }
        let mut i: usize = 1;
        while i < n
            invariant
                1 <= i <= n,
                n == line@.len(),
                line@[0] == MINUS,
                !is_quit_word(line@),
                forall|j: int| 1 <= j < i ==> is_digit(line@[j]),
            decreases n - i,
        {
            if !(line[i] >= ZERO && line[i] <= NINE) {
                proof {
                    assert(line@.skip(1)[i - 1] == line@[i as int]);
                    assert(!is_digit(line@[0]));
                    assert(!all_digits(num_body(line@)));
                }
                return Command::Invalid;
            }
            i = i + 1;
        }
        proof {
            assert forall|j: int| 0 <= j < line@.skip(1).len() implies is_digit(
                line@.skip(1)[j],
            ) by {
                assert(line@.skip(1)[j] == line@[j + 1]);
            }
        }
        return Command::Negative;
    }
    let start: usize = if line[0] == PLUS {
        1
    } else {
        0
    };
    let ghost body = num_body(line@);
    proof {
        assert(body =~= line@.subrange(start as int, n as int));
    }
    if start >= n {
        // a lone sign: the numeral has no digits
        return Command::Invalid;
    }
    // First pass: every byte of the numeral body must be a digit.
    let mut i: usize = start;
    while i < n
        invariant
            start <= i <= n,
            0 < n == line@.len(),
            start <= 1,
            !is_quit_word(line@),
            line@[0] != MINUS,
            body == num_body(line@),
            body =~= line@.subrange(start as int, n as int),
            forall|j: int| start <= j < i ==> is_digit(line@[j]),
        decreases n - i,
    {
        if !(line[i] >= ZERO && line[i] <= NINE) {
            proof {
                assert(!is_digit(body[i - start]));
            }
            return Command::Invalid;
        }
        i = i + 1;
    }
    proof {
        assert forall|j: int| 0 <= j < body.len() implies is_digit(body[j]) by {
            assert(body[j] == line@[j + start]);
        }
    }
    // Second pass: the value, watching the counter's range.
    let mut acc: u64 = 0;
    let mut i2: usize = start;
    while i2 < n
        invariant
            start <= i2 <= n,
            0 < n == line@.len(),
            start <= 1,
            !is_quit_word(line@),
            line@[0] != MINUS,
            body == num_body(line@),
            body =~= line@.subrange(start as int, n as int),
            forall|j: int| start <= j < n ==> is_digit(line@[j]),
            all_digits(body),
            acc == digits_val(line@.subrange(start as int, i2 as int)),
            acc <= u32::MAX,
        decreases n - i2,
    {
        let d = (line[i2] - ZERO) as u64;
        let new_acc = acc * 10 + d;
        proof {
            let upto = line@.subrange(start as int, i2 + 1);
            assert(upto.drop_last() =~= line@.subrange(start as int, i2 as int));
            assert(digits_val(upto) == new_acc);
        }
        if new_acc > u32::MAX as u64 {
            proof {
                lemma_digits_val_extend_ge(line@, start as int, i2 + 1, n as int);
            }
            return Command::TooLarge;
        }
        acc = new_acc;
        i2 = i2 + 1;
    }
    Command::Iterate(acc as u32)
}

/// A character standing for a dead cell in a custom initial-state string.
pub open spec fn is_dead_char(ch: char) -> bool {
    ch == ' ' || ch == '.' || ch == '0'
}

/// A character standing for an alive cell in a custom initial-state string;
/// the block glyph counts as alive.
pub open spec fn is_alive_char(ch: char) -> bool {
    ch == 'x' || ch == 'X' || ch == '1' || ch == '\u{2588}'
}

/// A character the custom initial-state encoding accepts at all.
pub open spec fn is_state_char(ch: char) -> bool {
    is_dead_char(ch) || is_alive_char(ch)
}

/// Decodes a custom initial-state string, one cell per character. Any
/// character outside the encoding is a configuration error, reported as the
/// position of the first offender.
pub fn parse_initial(chars: &[char]) -> (r: Result<Vec<bool>, usize>)
    ensures
        match r {
            Ok(cells) => {
                &&& forall|i: int| 0 <= i < chars@.len() ==> is_state_char(chars@[i])
                &&& cells@.len() == chars@.len()
                &&& forall|i: int| 0 <= i < chars@.len() ==> cells@[i] == is_alive_char(chars@[i])
            },
            Err(pos) => {
                &&& pos < chars@.len()
                &&& !is_state_char(chars@[pos as int])
                &&& forall|i: int| 0 <= i < pos ==> is_state_char(chars@[i])
            },
        },
{
    let mut cells: Vec<bool> = Vec::new();
    let mut i: usize = 0;
    while i < chars.len()
        invariant
            i <= chars@.len(),
            cells@.len() == i,
            forall|j: int| 0 <= j < i ==> is_state_char(chars@[j]),
            forall|j: int| 0 <= j < i ==> cells@[j] == is_alive_char(chars@[j]),
        decreases chars@.len() - i,
    {
        let ch = chars[i];
        if ch == 'x' || ch == 'X' || ch == '1' || ch == '\u{2588}' {
            cells.push(true);
        } else if ch == ' ' || ch == '.' || ch == '0' {
            cells.push(false);
        } else {
            return Err(i);
        }
        i = i + 1;
    }
    Ok(cells)
}

} // verus!
