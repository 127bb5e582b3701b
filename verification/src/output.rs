//! The snapshot sink: renders account snapshots as comma-separated rows,
//! exactly as the specification functions here say, into a text buffer
//! the caller then writes wherever it wants.

use vstd::prelude::*;
use vstd::string::StringExecFns;

use crate::amount::Amount;
use crate::transaction::Account;

verus! {

/// The digit character for `d`.
pub open spec fn digit_char(d: nat) -> char {
    ((48 + d) as u8) as char
}

/// The decimal digits of `n`, most significant first, no leading zeros
/// (zero itself is the single digit `0`).
pub open spec fn dec_digits(n: nat) -> Seq<char>
    decreases n,
{
    if n < 10 {
        seq![digit_char(n)]
    } else {
        dec_digits(n / 10).push(digit_char(n % 10))
    }
}

/// `s` with its trailing zero digits removed.
pub open spec fn trim_trailing_zeros(s: Seq<char>) -> Seq<char>
    decreases s.len(),
{
    if s.len() > 0 && s.last() == '0' {
        trim_trailing_zeros(s.drop_last())
    } else {
        s
    }
}

/// The four digits of the fraction `f` of a unit, most significant
/// first, zero-padded on the left.
pub open spec fn four_digits(f: nat) -> Seq<char> {
    seq![
        digit_char(f / 1000 % 10),
        digit_char(f / 100 % 10),
        digit_char(f / 10 % 10),
        digit_char(f % 10),
    ]
}

/// The written fraction part: nothing for a whole number of units, else
/// a decimal point and the fraction's digits with trailing zeros
/// trimmed.
pub open spec fn frac_chars(f: nat) -> Seq<char> {
    if f == 0 {
        Seq::empty()
    } else {
        seq!['.'] + trim_trailing_zeros(four_digits(f))
    }
}

/// The written form of `m` minor units, `m >= 0`: whole units, then the
/// fraction part.
pub open spec fn magnitude_chars(m: int) -> Seq<char> {
    dec_digits((m / 10000) as nat) + frac_chars((m % 10000) as nat)
}

/// The written form of a balance of `v` minor units: a minus sign when
/// negative, then its magnitude.
pub open spec fn amount_chars(v: int) -> Seq<char> {
    if v < 0 {
        seq!['-'] + magnitude_chars(-v)
    } else {
        magnitude_chars(v)
    }
}

/// The written form of the locked flag.
pub open spec fn bool_chars(b: bool) -> Seq<char> {
    if b {
        "true"@
    } else {
        "false"@
    }
}

/// The header row.
pub open spec fn header_chars() -> Seq<char> {
    "client,available,held,total,locked\n"@
}

/// One account's output row: client id, the three balances and the
/// locked flag, comma-separated, ending in a newline.
pub open spec fn row_chars(a: Account) -> Seq<char> {
    dec_digits(a.client.0 as nat) + ","@ + amount_chars(a.available@) + ","@ + amount_chars(
        a.held@,
    ) + ","@ + amount_chars(a.total@) + ","@ + bool_chars(a.locked) + "\n"@
}

/// Writes account snapshots as comma-separated rows into a text buffer.
pub struct CsvWriter {
    /// The text written so far: the header row, then one row per
    /// account handed to [`CsvWriter::write`].
    pub out: String,
}

fn append_digit(out: &mut String, d: u64)
    requires
        d < 10,
    ensures
        final(out)@ == old(out)@ + seq![digit_char(d as nat)],
{
    proof {
        reveal_strlit("0");
        reveal_strlit("1");
        reveal_strlit("2");
        reveal_strlit("3");
        reveal_strlit("4");
        reveal_strlit("5");
        reveal_strlit("6");
        reveal_strlit("7");
        reveal_strlit("8");
        reveal_strlit("9");
    }
    if d == 0 {
        out.append("0");
        proof {
            assert("0"@ =~= seq![digit_char(0)]);
        }
    } else if d == 1 {
        out.append("1");
        proof {
            assert("1"@ =~= seq![digit_char(1)]);
        }
    } else if d == 2 {
        out.append("2");
        proof {
            assert("2"@ =~= seq![digit_char(2)]);
        }
    } else if d == 3 {
        out.append("3");
        proof {
            assert("3"@ =~= seq![digit_char(3)]);
        }
    } else if d == 4 {
        out.append("4");
        proof {
            assert("4"@ =~= seq![digit_char(4)]);
        }
    } else if d == 5 {
        out.append("5");
        proof {
            assert("5"@ =~= seq![digit_char(5)]);
        }
    } else if d == 6 {
        out.append("6");
        proof {
            assert("6"@ =~= seq![digit_char(6)]);
        }
    } else if d == 7 {
        out.append("7");
        proof {
            assert("7"@ =~= seq![digit_char(7)]);
        }
    } else if d == 8 {
        out.append("8");
        proof {
            assert("8"@ =~= seq![digit_char(8)]);
        }
    } else {
        out.append("9");
        proof {
            assert("9"@ =~= seq![digit_char(9)]);
        }
    }
}

fn push_dec(out: &mut String, n: u64)
    ensures
        final(out)@ == old(out)@ + dec_digits(n as nat),
    decreases n,
{
    if n < 10 {
        append_digit(out, n);
    } else {
        push_dec(out, n / 10);
        append_digit(out, n % 10);
        proof {
            assert(old(out)@ + dec_digits((n / 10) as nat) + seq![digit_char((n % 10) as nat)]
                =~= old(out)@ + dec_digits(n as nat));
        }
    }
}

#[verifier::rlimit(60)]
fn push_amount(out: &mut String, a: Amount)
    ensures
        final(out)@ == old(out)@ + amount_chars(a@),
{
    let neg = a.minor < 0;
    if neg {
        out.append("-");
        proof {
            reveal_strlit("-");
            assert("-"@ =~= seq!['-']);
        }
    }
    let wide: i128 = a.minor as i128;
    let mag: u64 = if neg {
        (-wide) as u64
    } else {
        a.minor as u64
    };
    proof {
        assert(mag as int == if a@ < 0 {
            -a@
        } else {
            a@
        });
    }
    let units = mag / 10000;
    let frac = mag % 10000;
    let ghost before = out@;
    push_dec(out, units);
    if frac > 0 {
        out.append(".");
        proof {
            reveal_strlit(".");
            assert("."@ =~= seq!['.']);
        }
        let d1 = (frac / 1000) as u64;
        let d2 = (frac / 100 % 10) as u64;
        let d3 = (frac / 10 % 10) as u64;
        let d4 = (frac % 10) as u64;
        let ghost f = frac as nat;
        let ghost c1 = digit_char(d1 as nat);
        let ghost c2 = digit_char(d2 as nat);
        let ghost c3 = digit_char(d3 as nat);
        let ghost c4 = digit_char(d4 as nat);
        proof {
            assert(four_digits(f) =~= seq![c1, c2, c3, c4]);
        }
        if d4 != 0 {
            append_digit(out, d1);
            append_digit(out, d2);
            append_digit(out, d3);
            append_digit(out, d4);
            proof {
                assert(trim_trailing_zeros(four_digits(f)) =~= seq![c1, c2, c3, c4]);
            }
        } else if d3 != 0 {
            append_digit(out, d1);
            append_digit(out, d2);
            append_digit(out, d3);
            proof {
                assert(four_digits(f).drop_last() =~= seq![c1, c2, c3]);
                assert(c3 != '0');
                assert(trim_trailing_zeros(seq![c1, c2, c3]) =~= seq![c1, c2, c3]);
                assert(trim_trailing_zeros(four_digits(f)) =~= seq![c1, c2, c3]);
            }
        } else if d2 != 0 {
            append_digit(out, d1);
            append_digit(out, d2);
            proof {
                assert(four_digits(f).drop_last() =~= seq![c1, c2, c3]);
                assert(seq![c1, c2, c3].drop_last() =~= seq![c1, c2]);
                assert(c2 != '0' && c3 == '0' && c4 == '0');
                assert(trim_trailing_zeros(seq![c1, c2]) =~= seq![c1, c2]);
                assert(trim_trailing_zeros(seq![c1, c2, c3]) =~= seq![c1, c2]);
                assert(trim_trailing_zeros(four_digits(f)) =~= seq![c1, c2]);
            }
        } else {
            append_digit(out, d1);
            proof {
                assert(four_digits(f).drop_last() =~= seq![c1, c2, c3]);
                assert(seq![c1, c2, c3].drop_last() =~= seq![c1, c2]);
                assert(seq![c1, c2].drop_last() =~= seq![c1]);
                assert(d1 != 0);
                assert(c1 != '0' && c2 == '0' && c3 == '0' && c4 == '0');
                assert(trim_trailing_zeros(seq![c1]) =~= seq![c1]);
                assert(trim_trailing_zeros(seq![c1, c2]) =~= seq![c1]);
                assert(trim_trailing_zeros(seq![c1, c2, c3]) =~= seq![c1]);
                assert(trim_trailing_zeros(four_digits(f)) =~= seq![c1]);
            }
        }
    }
    proof {
        assert(frac == 0 ==> frac_chars((mag as int % 10000) as nat) =~= Seq::<char>::empty());
        assert(out@ =~= old(out)@ + amount_chars(a@));
    }
}

impl CsvWriter {
    /// A new writer holding only the header row.
    pub fn new() -> (r: CsvWriter)
        ensures
            r.out@ == header_chars(),
    {
        CsvWriter { out: String::from_str("client,available,held,total,locked\n") }
    }

    /// Appends the snapshot `account` as one output row.
    pub fn write(&mut self, account: &Account)
        ensures
            final(self).out@ == old(self).out@ + row_chars(*account),
    {
        proof {
            reveal_strlit(",");
            reveal_strlit("\n");
            reveal_strlit("true");
            reveal_strlit("false");
        }
        push_dec(&mut self.out, account.client.0 as u64);
        self.out.append(",");
        push_amount(&mut self.out, account.available);
        self.out.append(",");
        push_amount(&mut self.out, account.held);
        self.out.append(",");
        push_amount(&mut self.out, account.total);
        self.out.append(",");
        if account.locked {
            self.out.append("true");
        } else {
            self.out.append("false");
        }
        self.out.append("\n");
        proof {
            assert(self.out@ =~= old(self).out@ + row_chars(*account));
        }
    }
}

} // verus!
