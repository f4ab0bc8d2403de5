use vstd::prelude::*;

verus! {

/// A zero-based board address: `x` is the column, `y` the row.
#[derive(Clone, Copy, PartialEq, Eq, Structural, Debug)]
pub struct Position {
    pub x: usize,
    pub y: usize,
}

/// Why a line of input is not a position.
#[derive(Clone, Copy, PartialEq, Eq, Structural, Debug)]
pub enum ParsePositionError {
    /// The text is not two tokens separated by one comma.
    MalformedInput,
    /// A token is not a base-10 integer that fits in an `i32`.
    NotANumber,
    /// A number is below 1.
    IndexOutOfRange,
}

/// Whether `char::is_whitespace` holds of `c` (the Unicode `White_Space`
/// property).
pub uninterp spec fn white_space(c: char) -> bool;

/// Relies on `char::is_whitespace`, whose result depends on the character alone.
#[verifier::external_body]
fn is_blank(c: char) -> (r: bool)
    ensures
        r == white_space(c),
{
    c.is_whitespace()
}

/// The text with every white-space character taken out.
pub open spec fn strip_blanks(s: Seq<char>) -> Seq<char>
    decreases s.len(),
{
    if s.len() == 0 {
        Seq::empty()
    } else if white_space(s.last()) {
        strip_blanks(s.drop_last())
    } else {
        strip_blanks(s.drop_last()).push(s.last())
    }
}

/// The tokens of `s` between commas, as `str::split(',')` yields them: one more
/// than there are commas, empty ones included.
pub open spec fn comma_tokens(s: Seq<char>) -> Seq<Seq<char>>
    decreases s.len(),
{
    if s.len() == 0 {
        seq![Seq::empty()]
    } else {
        let front = comma_tokens(s.drop_last());
        if s.last() == ',' {
            front.push(Seq::empty())
        } else {
            front.update(front.len() - 1, front.last().push(s.last()))
        }
    }
}

pub open spec fn is_digit(c: char) -> bool {
    '0' <= c && c <= '9'
}

pub open spec fn all_digits(t: Seq<char>) -> bool {
    forall|i: int| 0 <= i < t.len() ==> is_digit(#[trigger] t[i])
}

/// The value of a string of decimal digits.
pub open spec fn digits_value(t: Seq<char>) -> int
    decreases t.len(),
{
    if t.len() == 0 {
        0
    } else {
        digits_value(t.drop_last()) * 10 + (t.last() as int - '0' as int)
    }
}

/// The signed base-10 integer that `t` spells, if it fits in an `i32`: an
/// optional `+` or `-`, then one or more digits, nothing else.
pub open spec fn int_of(t: Seq<char>) -> Option<int> {
    let neg = t.len() > 0 && t[0] == '-';
    let body = if t.len() > 0 && (t[0] == '-' || t[0] == '+') {
        t.drop_first()
    } else {
        t
    };
    let v = if neg {
        -digits_value(body)
    } else {
        digits_value(body)
    };
    if body.len() == 0 || !all_digits(body) || v < i32::MIN || v > i32::MAX {
        None
    } else {
        Some(v)
    }
}

/// The position that text without white space stands for: the first number is
/// the one-based row, the second the one-based column.
pub open spec fn position_of(t: Seq<char>) -> Result<Position, ParsePositionError> {
    let tokens = comma_tokens(t);
    if tokens.len() != 2 {
        Err(ParsePositionError::MalformedInput)
    } else {
        let row = int_of(tokens[0]);
        let column = int_of(tokens[1]);
        if row is None || column is None {
            Err(ParsePositionError::NotANumber)
        } else if row->0 < 1 || column->0 < 1 {
            Err(ParsePositionError::IndexOutOfRange)
        } else {
            Ok(Position { x: (column->0 - 1) as usize, y: (row->0 - 1) as usize })
        }
    }
}

proof fn lemma_digits_value_grows(t: Seq<char>, k: int)
    requires
        all_digits(t),
        0 <= k <= t.len(),
    ensures
        digits_value(t.take(k)) <= digits_value(t),
        0 <= digits_value(t),
    decreases t.len(),
{
    if t.len() > 0 {
        assert(all_digits(t.drop_last())) by {
            assert forall|i: int| 0 <= i < t.drop_last().len() implies is_digit(
                #[trigger] t.drop_last()[i],
            ) by {
                assert(t.drop_last()[i] == t[i]);
            }
        }
        assert(is_digit(t[t.len() - 1]));
        if k == t.len() {
            assert(t.take(k) == t);
            lemma_digits_value_grows(t.drop_last(), 0);
        } else {
            assert(t.take(k) == t.drop_last().take(k));
            lemma_digits_value_grows(t.drop_last(), k);
        }
    } else {
        assert(t.take(k) == t);
    }
}

/// Parses a signed base-10 `i32`, as `i32::from_str` does.
fn parse_int(t: &Vec<char>) -> (r: Option<i32>)
    ensures
        match r {
            Some(v) => int_of(t@) == Some(v as int),
            None => int_of(t@) is None,
        },
{
    let n = t.len();
    let neg = n > 0 && t[0] == '-';
    let start: usize = if n > 0 && (t[0] == '-' || t[0] == '+') {
        1
    } else {
        0
    };
    let ghost body = if start == 1 {
        t@.drop_first()
    } else {
        t@
    };
    assert(body == t@.subrange(start as int, n as int));

    if start == n {
        return None;
    }
    let mut acc: u64 = 0;
    let mut i: usize = start;
    while i < n
        invariant
            start <= i <= n,
            n == t@.len(),
            body == t@.subrange(start as int, n as int),
            body == (if t@.len() > 0 && (t@[0] == '-' || t@[0] == '+') {
                t@.drop_first()
            } else {
                t@
            }),
            neg == (t@.len() > 0 && t@[0] == '-'),
            all_digits(body.take(i - start)),
            acc as int == digits_value(body.take(i - start)),
            acc <= 2147483648,
        decreases n - i,
    {
        let c = t[i];
        if !('0' <= c && c <= '9') {
            assert(body[i - start] == c);
            assert(!all_digits(body));
            return None;
        }
        let ghost pre = body.take(i - start);
        assert(body.take(i - start + 1).drop_last() == pre);
        assert(body.take(i - start + 1).last() == c);
        acc = acc * 10 + (c as u64 - '0' as u64);
        i = i + 1;
        assert(all_digits(body.take(i - start))) by {
            assert forall|j: int| 0 <= j < body.take(i - start).len() implies is_digit(
                #[trigger] body.take(i - start)[j],
            ) by {
                if j < pre.len() {
                    assert(body.take(i - start)[j] == pre[j]);
                }
            }
        }
        if acc > 2147483648 {
            proof {
                if all_digits(body) {
                    lemma_digits_value_grows(body, i - start);
                    assert(digits_value(body) > 2147483648);
                }
            }
            return None;
        }
    }
    assert(body.take(n - start) == body);
    if neg {
        Some((0 - acc as i64) as i32)
    } else if acc > 2147483647 {
        None
    } else {
        Some(acc as i32)
    }
}

/// The characters of each vector, in order.
pub open spec fn char_seqs(v: Seq<Vec<char>>) -> Seq<Seq<char>> {
    v.map_values(|t: Vec<char>| t@)
}

/// Splits `text` at every comma, as `str::split(',')` does.
fn split_commas(text: &Vec<char>) -> (r: Vec<Vec<char>>)
    ensures
        char_seqs(r@) == comma_tokens(text@),
{
    let mut done: Vec<Vec<char>> = Vec::new();
    let mut current: Vec<char> = Vec::new();
    let mut i: usize = 0;
    assert(text@.take(0) =~= Seq::<char>::empty());
    assert(char_seqs(done@).push(current@) =~= seq![Seq::<char>::empty()]);
    while i < text.len()
        invariant
            i <= text@.len(),
            char_seqs(done@).push(current@) == comma_tokens(text@.take(i as int)),
        decreases text@.len() - i,
    {
        let c = text[i];
        let ghost before = char_seqs(done@).push(current@);
        assert(text@.take(i + 1).drop_last() =~= text@.take(i as int));
        assert(text@.take(i + 1).last() == c);
        if c == ',' {
            done.push(current);
            current = Vec::new();
            assert(char_seqs(done@).push(current@) =~= before.push(Seq::empty()));
        } else {
            current.push(c);
            assert(char_seqs(done@).push(current@) =~= before.update(
                before.len() - 1,
                before.last().push(c),
            ));
        }
        i = i + 1;
    }
    assert(text@.take(text@.len() as int) =~= text@);
    done.push(current);
    done
}

impl Position {
    /// Reads a position from text that holds no white space: two base-10
    /// integers separated by a comma, the one-based row first and the
    /// one-based column second. Numbers above the board size are accepted
    /// here; placement rejects them.
    pub fn parse_compact(text: &Vec<char>) -> (r: Result<Position, ParsePositionError>)
        ensures
            r == position_of(text@),
    {
        let tokens = split_commas(text);
        if tokens.len() != 2 {
            return Err(ParsePositionError::MalformedInput);
        }
        assert(tokens@[0]@ == comma_tokens(text@)[0]);
        assert(tokens@[1]@ == comma_tokens(text@)[1]);
        let row = parse_int(&tokens[0]);
        let column = parse_int(&tokens[1]);
        match (row, column) {
            (Some(row), Some(column)) => {
                if row < 1 || column < 1 {
                    Err(ParsePositionError::IndexOutOfRange)
                } else {
                    Ok(Position { x: (column - 1) as usize, y: (row - 1) as usize })
                }
            },
            _ => Err(ParsePositionError::NotANumber),
        }
    }

    /// Reads a position from a line of input: white space anywhere is
    /// ignored, then the rest is read as `parse_compact` reads it.
    pub fn parse(s: &str) -> (r: Result<Position, ParsePositionError>)
        ensures
            r == position_of(strip_blanks(s@)),
    {
        let n = s.unicode_len();
        let mut compact: Vec<char> = Vec::new();
        let mut i: usize = 0;
        assert(s@.take(0) =~= Seq::<char>::empty());
        while i < n
            invariant
                i <= n,
                n == s@.len(),
                compact@ == strip_blanks(s@.take(i as int)),
            decreases n - i,
        {
            let c = s.get_char(i);
            assert(s@.take(i + 1).drop_last() =~= s@.take(i as int));
            assert(s@.take(i + 1).last() == c);
            if !is_blank(c) {
                compact.push(c);
            }
            i = i + 1;
        }
        assert(s@.take(n as int) =~= s@);
        Position::parse_compact(&compact)
    }
}

impl std::str::FromStr for Position {
    type Err = ParsePositionError;

    fn from_str(s: &str) -> Result<Position, ParsePositionError> {
        Position::parse(s)
    }
}

impl ParsePositionError {
    /// The one-line description shown to the player.
    pub open spec fn text(self) -> Seq<char> {
        match self {
            ParsePositionError::MalformedInput => "Expected two numbers separated by a comma"@,
            ParsePositionError::NotANumber => "Couldn't parse row/column, expected an integer"@,
            ParsePositionError::IndexOutOfRange => "Couldn't parse row/column, index must start from 1"@,
        }
    }

    /// The one-line description shown to the player.
    pub fn message(&self) -> (r: String)
        ensures
            r@ == self.text(),
    {
        match self {
            ParsePositionError::MalformedInput => String::from_str(
                "Expected two numbers separated by a comma",
            ),
            ParsePositionError::NotANumber => String::from_str(
                "Couldn't parse row/column, expected an integer",
            ),
            ParsePositionError::IndexOutOfRange => String::from_str(
                "Couldn't parse row/column, index must start from 1",
            ),
        }
    }
}

} // verus!
