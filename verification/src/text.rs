//! Character-level helpers: a string held with its characters laid out for
//! indexing, literal comparison at a position, and decimal numerals.
use vstd::prelude::*;

verus! {

/// A borrowed string together with its characters, so that a character can be
/// read by index and a range can be handed out as a string slice.
pub struct Text<'a> {
    text: &'a str,
    chars: Vec<char>,
}

impl<'a> View for Text<'a> {
    type V = Seq<char>;

    closed spec fn view(&self) -> Seq<char> {
        self.text@
    }
}

impl<'a> Text<'a> {
    /// The characters held are those of the string.
    #[verifier::type_invariant]
    closed spec fn consistent(self) -> bool {
        self.chars@ == self.text@
    }

    /// Lays out the characters of `text`.
    pub fn new(text: &'a str) -> (laid_out: Text<'a>)
        ensures
            laid_out@ == text@,
    {
        let mut chars: Vec<char> = Vec::new();
        for c in it: text.chars()
            invariant
                chars@ == it.seq().take(it.index() as int),
                it.seq() == text@,
        {
            chars.push(c);
        }
        assert(chars@ =~= text@);
        Text { text, chars }
    }

    /// The number of characters.
    pub fn len(&self) -> (n: usize)
        ensures
            n == self@.len(),
    {
        proof {
            use_type_invariant(self);
        }
        self.chars.len()
    }

    /// The character at `index`.
    pub fn at(&self, index: usize) -> (c: char)
        requires
            index < self@.len(),
        ensures
            c == self@[index as int],
    {
        proof {
            use_type_invariant(self);
        }
        self.chars[index]
    }

    /// Whether the character at `index` exists and is `c`.
    pub fn is_at(&self, index: usize, c: char) -> (b: bool)
        ensures
            b == has_char_at(self@, index as int, c),
            b ==> index < usize::MAX,
    {
        proof {
            use_type_invariant(self);
        }
        index < self.chars.len() && self.chars[index] == c
    }

    /// The characters from `from` up to `to`, as a slice of the string.
    pub fn slice(&self, from: usize, to: usize) -> (part: &'a str)
        requires
            from <= to <= self@.len(),
        ensures
            part@ == self@.subrange(from as int, to as int),
    {
        self.text.substring_char(from, to)
    }

    /// The characters from `from` up to `to`, as an owned string.
    pub fn owned(&self, from: usize, to: usize) -> (part: String)
        requires
            from <= to <= self@.len(),
        ensures
            part@ == self@.subrange(from as int, to as int),
    {
        String::from_str(self.text.substring_char(from, to))
    }

    /// Whether `literal` stands at `pos`.
    pub fn has_literal_at(&self, pos: usize, literal: &str) -> (b: bool)
        ensures
            b == occurs_at(self@, pos as int, literal@),
    {
        proof {
            use_type_invariant(self);
        }
        let n = self.chars.len();
        if pos > n {
            return false;
        }
        let mut i: usize = pos;
        let mut same = true;
        for c in it: literal.chars()
            invariant
                it.seq() == literal@,
                self.chars@ == self@,
                n == self@.len(),
                pos <= n,
                same ==> i == pos + it.index() && i <= n,
                same ==> self@.subrange(pos as int, i as int) == literal@.take(it.index() as int),
                !same ==> !occurs_at(self@, pos as int, literal@),
        {
            if same {
                if i < n && self.chars[i] == c {
                    proof {
                        let k = it.index() as int;
                        assert(self@.subrange(pos as int, i + 1) =~= self@.subrange(
                            pos as int,
                            i as int,
                        ).push(self@[i as int]));
                        assert(literal@.take(k + 1) =~= literal@.take(k).push(literal@[k]));
                    }
                    i += 1;
                } else {
                    proof {
                        let k = it.index() as int;
                        if occurs_at(self@, pos as int, literal@) {
                            assert(self@.subrange(pos as int, pos + literal@.len())[k]
                                == literal@[k]);
                        }
                    }
                    same = false;
                }
            }
        }
        proof {
            if same {
                assert(literal@.take(literal@.len() as int) =~= literal@);
            }
        }
        same
    }
}

/// Whether `s` has the character `c` at `index`.
pub open spec fn has_char_at(s: Seq<char>, index: int, c: char) -> bool {
    0 <= index < s.len() && s[index] == c
}

/// Whether `literal` stands in `s` at `pos`.
pub open spec fn occurs_at(s: Seq<char>, pos: int, literal: Seq<char>) -> bool {
    &&& 0 <= pos
    &&& pos + literal.len() <= s.len()
    &&& s.subrange(pos, pos + literal.len()) == literal
}

/// Whether `c` is one of `0` to `9`.
pub open spec fn is_digit(c: char) -> bool {
    '0' <= c <= '9'
}

/// The number a digit stands for.
pub open spec fn digit_value(c: char) -> nat
    recommends
        is_digit(c),
{
    (c as u32 - '0' as u32) as nat
}

/// The number that a string of digits denotes in base ten.
pub open spec fn decimal_value(digits: Seq<char>) -> nat
    decreases digits.len(),
{
    if digits.len() == 0 {
        0
    } else {
        decimal_value(digits.drop_last()) * 10 + digit_value(digits.last())
    }
}

/// The digit that stands for a number below ten.
pub open spec fn digit_char(d: nat) -> char
    recommends
        d < 10,
{
    if d == 0 {
        '0'
    } else if d == 1 {
        '1'
    } else if d == 2 {
        '2'
    } else if d == 3 {
        '3'
    } else if d == 4 {
        '4'
    } else if d == 5 {
        '5'
    } else if d == 6 {
        '6'
    } else if d == 7 {
        '7'
    } else if d == 8 {
        '8'
    } else {
        '9'
    }
}

/// The base-ten numeral of `n`, without leading zeros.
pub open spec fn decimal(n: nat) -> Seq<char>
    decreases n,
{
    if n < 10 {
        seq![digit_char(n)]
    } else {
        decimal(n / 10).push(digit_char(n % 10))
    }
}

/// A numeral consists of digits, and denotes the number it was made from.
pub proof fn lemma_decimal_round_trip(n: nat)
    ensures
        decimal(n).len() >= 1,
        forall|i: int| 0 <= i < decimal(n).len() ==> is_digit(#[trigger] decimal(n)[i]),
        decimal_value(decimal(n)) == n,
    decreases n,
{
    if n < 10 {
        assert(decimal(n).drop_last() =~= Seq::<char>::empty());
        assert(decimal_value(decimal(n).drop_last()) == 0);
    } else {
        lemma_decimal_round_trip(n / 10);
        assert(decimal(n).drop_last() =~= decimal(n / 10));
    }
}

/// Whether `c` is a digit.
pub fn digit(c: char) -> (b: bool)
    ensures
        b == is_digit(c),
{
    c >= '0' && c <= '9'
}

/// The one-character string of a digit.
fn digit_str(d: usize) -> (s: &'static str)
    requires
        d < 10,
    ensures
        s@ == seq![digit_char(d as nat)],
{
    proof {
        reveal_strlit("0");
        reveal_strlit("1");
        reveal_strlit("2");
        reveal_strlit("3");
        reveal_strlit("4");
        reveal_strlit("5");
        reveal_strlit("6");
        reveal_strlit("7");
        reveal_strlit("8");
        reveal_strlit("9");
    }
    let s = if d == 0 {
        "0"
    } else if d == 1 {
        "1"
    } else if d == 2 {
        "2"
    } else if d == 3 {
        "3"
    } else if d == 4 {
        "4"
    } else if d == 5 {
        "5"
    } else if d == 6 {
        "6"
    } else if d == 7 {
        "7"
    } else if d == 8 {
        "8"
    } else {
        "9"
    };
    assert(s@ =~= seq![digit_char(d as nat)]);
    s
}

/// The base-ten numeral of `n`.
pub fn decimal_string(n: usize) -> (numeral: String)
    ensures
        numeral@ == decimal(n as nat),
    decreases n,
{
    if n < 10 {
        String::from_str(digit_str(n))
    } else {
        let mut numeral = decimal_string(n / 10);
        numeral.append(digit_str(n % 10));
        assert(numeral@ =~= decimal(n as nat));
        numeral
    }
}

} // verus!
