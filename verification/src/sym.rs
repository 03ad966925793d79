//! The symbol type and the trait for values that carry one.

use core::cmp::Ordering;
use vstd::prelude::*;
use vstd::std_specs::cmp::PartialOrdSpecImpl;
use vstd::std_specs::convert::FromSpecImpl;
use vstd::string::{StringExecFns, StrSliceExecFns};

verus! {

/// Key used by string interner. Instead of passing strings around, instances
/// of `Sym` are used, which can in turn be used to query the string interner
/// for the string slice that was interned.
///
/// A symbol is a plain number. Which string it stands for is known only to
/// the interner that issued it.
#[derive(Copy, Clone, Debug, PartialEq, Eq, Structural, Ord, Hash)]
pub struct Sym(u32);

impl View for Sym {
    type V = u32;

    /// The number of the symbol.
    closed spec fn view(&self) -> u32 {
        self.0
    }
}

impl Sym {
    /// The symbol with the number `n`.
    pub closed spec fn spec_new(n: u32) -> Sym {
        Sym(n)
    }

    #[verifier::when_used_as_spec(spec_new)]
    pub fn new(n: u32) -> (s: Sym)
        ensures
            s == Sym::new(n),
            s@ == n,
    {
        Sym(n)
    }

    pub fn get(&self) -> (n: u32)
        ensures
            n == self@,
    {
        self.0
    }

    /// A symbol is its number: two symbols with the same number are the same
    /// symbol.
    pub proof fn lemma_view(a: Sym, b: Sym)
        ensures
            a@ == b@ <==> a == b,
    {
    }

    /// The symbol made from a number has that number.
    pub proof fn lemma_new(n: u32)
        ensures
            Sym::new(n)@ == n,
    {
    }

    /// The symbol as text: a dollar sign and the number in decimal.
    pub fn to_string(&self) -> (s: String)
        ensures
            s@ == seq!['$'] + decimal(self@ as nat),
    {
        let mut s = String::from_str("$");
        proof {
            reveal_strlit("$");
            assert(s@ =~= seq!['$']);
        }
        push_decimal(&mut s, self.0);
        s
    }
}

/// The digit for a number below ten.
pub open spec fn digit(d: nat) -> char {
    ('0' as nat + d) as char
}

/// The decimal numeral of `n`, without leading zeros.
pub open spec fn decimal(n: nat) -> Seq<char>
    decreases n,
{
    if n < 10 {
        seq![digit(n)]
    } else {
        decimal(n / 10).push(digit(n % 10))
    }
}

/// The digit for a number below ten, as a string.
fn digit_str(d: u32) -> (s: &'static str)
    requires
        d < 10,
    ensures
        s@ == seq![digit(d as nat)],
{
    let digits = "0123456789";
    proof {
        reveal_strlit("0123456789");
    }
    let s = digits.substring_ascii(d as usize, d as usize + 1);
    assert(s@ =~= seq![digit(d as nat)]);
    s
}

/// Appends the decimal numeral of `n` to `out`.
fn push_decimal(out: &mut String, n: u32)
    ensures
        final(out)@ == old(out)@ + decimal(n as nat),
    decreases n,
{
    if n >= 10 {
        push_decimal(out, n / 10);
    }
    out.append(digit_str(n % 10));
    assert(out@ =~= old(out)@ + decimal(n as nat));
}

impl PartialOrd for Sym {
    /// Symbols are ordered by their numbers.
    fn partial_cmp(&self, other: &Sym) -> (order: Option<Ordering>) {
        if self.0 < other.0 {
            Some(Ordering::Less)
        } else if self.0 > other.0 {
            Some(Ordering::Greater)
        } else {
            Some(Ordering::Equal)
        }
    }
}

impl PartialOrdSpecImpl for Sym {
    open spec fn obeys_partial_cmp_spec() -> bool {
        true
    }

    open spec fn partial_cmp_spec(&self, other: &Sym) -> Option<Ordering> {
        if self@ < other@ {
            Some(Ordering::Less)
        } else if self@ > other@ {
            Some(Ordering::Greater)
        } else {
            Some(Ordering::Equal)
        }
    }
}

impl From<Sym> for u32 {
    /// The number of the symbol.
    fn from(sym: Sym) -> (n: u32)
        ensures
            n == sym@,
    {
        sym.0
    }
}

impl FromSpecImpl<Sym> for u32 {
    open spec fn obeys_from_spec() -> bool {
        true
    }

    open spec fn from_spec(sym: Sym) -> u32 {
        sym@
    }
}

impl From<usize> for Sym {
    /// The symbol whose number is the low 32 bits of `n`.
    fn from(n: usize) -> (sym: Sym)
        ensures
            sym@ == n as int % 0x1_0000_0000,
    {
        assert(n as u32 == (n as u64) % 0x1_0000_0000u64) by (bit_vector);
        Sym(#[verifier::truncate] (n as u32))
    }
}

impl FromSpecImpl<usize> for Sym {
    open spec fn obeys_from_spec() -> bool {
        true
    }

    open spec fn from_spec(n: usize) -> Sym {
        Sym::new((n as int % 0x1_0000_0000) as u32)
    }
}

/// Trait allowing for retrieval of underlying `Sym` for data types with a
/// `Sym` payload. This allows for a slightly more ergonomic way of looking up
/// stored strings associated with a given type.
pub trait Symbolic {
    /// The symbol that the value carries.
    spec fn sym(&self) -> Sym;

    fn get_sym(&self) -> (s: Sym)
        ensures
            s == self.sym(),
    ;
}

impl Symbolic for Sym {
    open spec fn sym(&self) -> Sym {
        *self
    }

    fn get_sym(&self) -> (s: Sym) {
        *self
    }
}

} // verus!
