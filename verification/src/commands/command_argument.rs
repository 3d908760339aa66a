use vstd::prelude::*;
use vstd::string::StrSliceExecFns;

verus! {

/// Whether `c` is one of the characters `0` to `9`.
pub open spec fn is_digit(c: char) -> bool {
    '0' <= c <= '9'
}

/// Whether `s` consists of decimal digits only.
pub open spec fn all_digits(s: Seq<char>) -> bool {
    forall|i: int| 0 <= i < s.len() ==> is_digit(#[trigger] s[i])
}

/// The number that the decimal digits `s` write; the empty sequence writes 0.
pub open spec fn decimal_value(s: Seq<char>) -> nat
    decreases s.len(),
{
    if s.len() == 0 {
        0
    } else {
        (decimal_value(s.drop_last()) * 10 + (s.last() as u32 - '0' as u32)) as nat
    }
}

/// What an argument reads as a number: its decimal value, where it consists
/// of digits only and that value fits in 32 bits.
pub open spec fn parsed_integer(s: Seq<char>) -> Option<u32> {
    if all_digits(s) && decimal_value(s) <= u32::MAX {
        Some(decimal_value(s) as u32)
    } else {
        None
    }
}

/// The value of a digit sequence is at least that of each of its prefixes.
pub proof fn lemma_decimal_value_prefix(s: Seq<char>, n: int)
    requires
        all_digits(s),
        0 <= n <= s.len(),
    ensures
        decimal_value(s.take(n)) <= decimal_value(s),
    decreases s.len() - n,
{
    if n == s.len() {
        assert(s.take(n) =~= s);
    } else {
        let t = s.drop_last();
        assert forall|i: int| 0 <= i < t.len() implies is_digit(#[trigger] t[i]) by {
            assert(t[i] == s[i]);
        }
        assert(is_digit(s[s.len() - 1]));
        assert(t.take(n) =~= s.take(n));
        lemma_decimal_value_prefix(t, n);
    }
}

/// The character that writes the digit `digit`.
pub open spec fn digit_char(digit: nat) -> char {
    ('0' as u32 + digit) as char
}

/// The decimal digits that write `value`, without leading zeros.
pub open spec fn decimal_digits(value: nat) -> Seq<char>
    decreases value,
{
    if value < 10 {
        seq![digit_char(value)]
    } else {
        decimal_digits(value / 10).push(digit_char(value % 10))
    }
}

/// A number is read back from the digits that write it.
pub proof fn lemma_decimal_digits_read_back(value: nat)
    ensures
        decimal_digits(value).len() > 0,
        all_digits(decimal_digits(value)),
        decimal_value(decimal_digits(value)) == value,
        value <= u32::MAX ==> parsed_integer(decimal_digits(value)) == Some(value as u32),
    decreases value,
{
    let digits = decimal_digits(value);
    if value < 10 {
        assert(digits.drop_last() =~= Seq::<char>::empty());
        assert(decimal_value(digits.drop_last()) == 0);
        assert(digits.last() == digit_char(value));
        assert(is_digit(digits[0]));
    } else {
        let front = decimal_digits(value / 10);
        lemma_decimal_digits_read_back(value / 10);
        assert(digits.drop_last() =~= front);
        assert(digits.last() == digit_char(value % 10));
        assert forall|i: int| 0 <= i < digits.len() implies is_digit(#[trigger] digits[i]) by {
            if i < front.len() {
                assert(digits[i] == front[i]);
            }
        }
    }
}

/// One word of a command line: a view into the line, nothing copied.
#[derive(Clone, Copy, Eq, PartialEq)]
pub struct CommandArgument<'d> {
    pub data: &'d [char],
}

impl<'d> View for CommandArgument<'d> {
    type V = Seq<char>;

    open spec fn view(&self) -> Seq<char> {
        self.data@
    }
}

impl<'d> CommandArgument<'d> {
    pub fn new(data: &'d [char]) -> (argument: Self)
        ensures
            argument@ == data@,
            argument.data == data,
    {
        Self { data }
    }

    pub fn chars(&self) -> (data: &'d [char])
        ensures
            data@ == self@,
            data == self.data,
    {
        self.data
    }

    /// Reads the argument as a decimal number.
    pub fn try_to_integer(&self) -> (result: Option<u32>)
        requires
            self@.len() > 0,
        ensures
            result == parsed_integer(self@),
    {
        let length = self.data.len();
        let mut result: u32 = 0;
        let mut i: usize = 0;
        while i < length
            invariant
                i <= length,
                length == self@.len(),
                all_digits(self@.take(i as int)),
                result == decimal_value(self@.take(i as int)),
            decreases length - i,
        {
            let c = self.data[i];
            if c < '0' || c > '9' {
                assert(!is_digit(self@[i as int]));
                return None;
            }
            let num: u32 = (c as u32) - ('0' as u32);
            proof {
                let next = self@.take(i + 1);
                assert(next.drop_last() =~= self@.take(i as int));
                assert(next.last() == c);
                assert forall|k: int| 0 <= k < next.len() implies is_digit(#[trigger] next[k]) by {
                    if k < i {
                        assert(self@.take(i as int)[k] == next[k]);
                    }
                }
            }
            let grown = match result.checked_mul(10) {
                Some(v) => v.checked_add(num),
                None => None,
            };
            match grown {
                Some(v) => {
                    result = v;
                },
                None => {
                    proof {
                        if all_digits(self@) {
                            lemma_decimal_value_prefix(self@, i + 1);
                        }
                    }
                    return None;
                },
            }
            i += 1;
        }
        assert(self@.take(length as int) =~= self@);
        Some(result)
    }

    /// Whether the argument is exactly the text `to`.
    pub fn compare(&self, to: &str) -> (same: bool)
        ensures
            same == (self@ == to@),
    {
        let n = to.unicode_len();
        if self.data.len() != n {
            return false;
        }
        let mut i: usize = 0;
        while i < n
            invariant
                i <= n,
                n == to@.len(),
                n == self@.len(),
                forall|k: int| 0 <= k < i ==> self@[k] == to@[k],
            decreases n - i,
        {
            if to.get_char(i) != self.data[i] {
                return false;
            }
            i += 1;
        }
        assert(self@ =~= to@);
        true
    }
}

} // verus!
