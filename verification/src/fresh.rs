//! The fresh type-variable supply: a monotonic counter producing names
//! `t0, t1, ...`. One supply is scoped to one top-level inference call.

use vstd::prelude::*;
use vstd::string::StringExecFns;

verus! {

/// The character for a single decimal digit.
pub open spec fn digit_char(d: nat) -> char {
    if d == 0 {
        '0'
    } else if d == 1 {
        '1'
    } else if d == 2 {
        '2'
    } else if d == 3 {
        '3'
    } else if d == 4 {
        '4'
    } else if d == 5 {
        '5'
    } else if d == 6 {
        '6'
    } else if d == 7 {
        '7'
    } else if d == 8 {
        '8'
    } else {
        '9'
    }
}

/// The decimal digits of a number, most significant first.
pub open spec fn spec_decimal(n: nat) -> Seq<char>
    decreases n,
{
    if n < 10 {
        seq![digit_char(n)]
    } else {
        spec_decimal(n / 10).push(digit_char(n % 10))
    }
}

/// The name of the generated type variable with index `n`.
pub open spec fn var_name(n: nat) -> Seq<char> {
    seq!['t'] + spec_decimal(n)
}

/// A decimal rendering has at least one digit, and at least two for a
/// number of two digits.
proof fn lemma_decimal_len(n: nat)
    ensures
        spec_decimal(n).len() >= 1,
        n >= 10 ==> spec_decimal(n).len() >= 2,
    decreases n,
{
    if n >= 10 {
        lemma_decimal_len(n / 10);
    }
}

/// Decimal renderings are unique: two numbers with the same digits are the
/// same number.
proof fn lemma_decimal_injective(a: nat, b: nat)
    requires
        spec_decimal(a) == spec_decimal(b),
    ensures
        a == b,
    decreases a,
{
    lemma_decimal_len(a);
    lemma_decimal_len(b);
    if a < 10 && b < 10 {
        assert(digit_char(a) == digit_char(b)) by {
            assert(spec_decimal(a) == seq![digit_char(a)]);
            assert(spec_decimal(b) == seq![digit_char(b)]);
            assert(seq![digit_char(a)][0] == digit_char(a));
            assert(seq![digit_char(b)][0] == digit_char(b));
        }
    } else if a < 10 || b < 10 {
        assert(false);
    } else {
        let sa = spec_decimal(a / 10);
        let sb = spec_decimal(b / 10);
        assert(sa.push(digit_char(a % 10)) == sb.push(digit_char(b % 10)));
        assert(sa == sb) by {
            assert(sa =~= sa.push(digit_char(a % 10)).drop_last());
            assert(sb =~= sb.push(digit_char(b % 10)).drop_last());
        }
        assert(digit_char(a % 10) == digit_char(b % 10)) by {
            assert(sa.push(digit_char(a % 10)).last() == sb.push(digit_char(b % 10)).last());
        }
        assert(a % 10 == b % 10);
        lemma_decimal_injective(a / 10, b / 10);
        assert(a == (a / 10) * 10 + a % 10) by (nonlinear_arith);
        assert(b == (b / 10) * 10 + b % 10) by (nonlinear_arith);
    }
}

/// Generated variable names are unique: distinct indices give distinct
/// names.
pub proof fn lemma_var_name_injective(a: nat, b: nat)
    requires
        var_name(a) == var_name(b),
    ensures
        a == b,
{
    assert(spec_decimal(a) =~= spec_decimal(b)) by {
        assert(var_name(a).len() == 1 + spec_decimal(a).len());
        assert(var_name(b).len() == 1 + spec_decimal(b).len());
        assert forall|i: int| 0 <= i < spec_decimal(a).len() implies spec_decimal(a)[i]
            == spec_decimal(b)[i] by {
            assert(var_name(a)[i + 1] == spec_decimal(a)[i]);
            assert(var_name(b)[i + 1] == spec_decimal(b)[i]);
        }
    }
    lemma_decimal_injective(a, b);
}

/// The string for a single decimal digit.
fn digit_str(d: u64) -> (r: &'static str)
    requires
        d < 10,
    ensures
        r@ == seq![digit_char(d as nat)],
{
    proof {
        reveal_strlit("0");
        reveal_strlit("1");
        reveal_strlit("2");
        reveal_strlit("3");
        reveal_strlit("4");
        reveal_strlit("5");
        reveal_strlit("6");
        reveal_strlit("7");
        reveal_strlit("8");
        reveal_strlit("9");
    }
    let r: &'static str = if d == 0 {
        "0"
    } else if d == 1 {
        "1"
    } else if d == 2 {
        "2"
    } else if d == 3 {
        "3"
    } else if d == 4 {
        "4"
    } else if d == 5 {
        "5"
    } else if d == 6 {
        "6"
    } else if d == 7 {
        "7"
    } else if d == 8 {
        "8"
    } else {
        "9"
    };
    proof {
        assert(r@ =~= seq![digit_char(d as nat)]);
    }
    r
}

/// The decimal rendering of a number.
fn decimal(n: u64) -> (r: String)
    ensures
        r@ == spec_decimal(n as nat),
    decreases n,
{
    if n < 10 {
        String::from_str(digit_str(n))
    } else {
        let head = decimal(n / 10);
        let r = head.concat(digit_str(n % 10));
        proof {
            assert(r@ =~= spec_decimal(n as nat));
        }
        r
    }
}

/// The fresh-variable supply: a counter, incremented at each draw, whose
/// model is the index of the next name. The counter does not move past the
/// largest representable index, a bound no terrestrial run approaches.
pub struct Fresh {
    counter: u64,
}

impl View for Fresh {
    type V = nat;

    closed spec fn view(&self) -> nat {
        self.counter as nat
    }
}

impl Fresh {
    /// A supply whose first name is the variable with index 0.
    pub fn new() -> (r: Fresh)
        ensures
            r@ == 0,
    {
        Fresh { counter: 0 }
    }

    /// Draws the next name: `t` followed by the decimal counter value.
    pub fn next(&mut self) -> (r: String)
        ensures
            r@ == var_name(old(self)@),
            old(self)@ < u64::MAX ==> final(self)@ == old(self)@ + 1,
            final(self)@ >= old(self)@,
    {
        let digits = decimal(self.counter);
        let r = String::from_str("t").concat(digits.as_str());
        proof {
            reveal_strlit("t");
            assert(r@ =~= var_name(self.counter as nat));
        }
        if self.counter < u64::MAX {
            self.counter = self.counter + 1;
        }
        r
    }
}

} // verus!
