//! The demo window's state: how often its button was clicked, and what its
//! label says.

use vstd::prelude::*;
use crate::cli::{all_digits, digits_value, parsed_u64, unsigned_digits};

verus! {

/// The character of the decimal digit `d` (below ten).
pub open spec fn digit_char(d: nat) -> char {
    ((d + 48) as u32) as char
}

/// The decimal digits of `n`, most significant first, with no leading zero.
pub open spec fn decimal_text_of(n: nat) -> Seq<char>
    decreases n,
{
    if n < 10 {
        seq![digit_char(n)]
    } else {
        decimal_text_of(n / 10).push(digit_char(n % 10))
    }
}

/// Renders a number as `to_string` does: its decimal digits.
#[verifier::external_body]
fn decimal_text(n: usize) -> (s: String)
    ensures
        s@ == decimal_text_of(n as nat),
{
    n.to_string()
}

/// The decimal text of `n` is a non-empty run of digits, not starting with
/// `+`, whose number is `n`.
proof fn lemma_decimal_text_digits(n: nat)
    ensures
        decimal_text_of(n).len() > 0,
        all_digits(decimal_text_of(n)),
        digits_value(decimal_text_of(n)) == n,
        decimal_text_of(n)[0] != '+',
    decreases n,
{
    if n < 10 {
        let s = decimal_text_of(n);
        assert(s.drop_last() =~= Seq::<char>::empty());
        assert(digit_char(n) as int == n + 48);
        assert(s.last() == digit_char(n));
        assert('0' as int == 48);
        assert(digits_value(s.drop_last()) == 0);
        assert(digits_value(s) == digits_value(s.drop_last()) * 10 + (s.last() as int - '0' as int));
    } else {
        lemma_decimal_text_digits(n / 10);
        let s = decimal_text_of(n / 10);
        let t = decimal_text_of(n);
        assert(t == s.push(digit_char(n % 10)));
        assert(t.drop_last() =~= s);
        assert(digit_char(n % 10) as int == n % 10 + 48);
        assert(t.last() == digit_char(n % 10));
        assert('0' as int == 48);
        assert(digits_value(t) == digits_value(s) * 10 + (n % 10));
        assert((n / 10) * 10 + n % 10 == n) by (nonlinear_arith);
        assert forall|i: int| 0 <= i < t.len() implies '0' <= #[trigger] t[i] <= '9' by {
            if i < s.len() {
                assert(t[i] == s[i]);
            }
        }
        assert(t[0] == s[0]);
    }
}

/// The decimal text of a number parses back to that number.
pub proof fn lemma_decimal_text_parses_back(n: u64)
    ensures
        parsed_u64(decimal_text_of(n as nat)) == Some(n),
{
    lemma_decimal_text_digits(n as nat);
    assert(unsigned_digits(decimal_text_of(n as nat)) == decimal_text_of(n as nat));
}

/// Whether `label` reads `You have clicked `, then a number that parses as
/// `n`, then ` times!`.
pub open spec fn label_shows_count(label: Seq<char>, n: u64) -> bool {
    exists|d: Seq<char>| #[trigger] parsed_u64(d) == Some(n) && label == "You have clicked "@ + d + " times!"@
}

/// The label after `count` clicks shows that count.
pub proof fn lemma_click_label_shows_count(count: usize)
    ensures
        label_shows_count(click_label_text(count), count as u64),
{
    lemma_decimal_text_parses_back(count as u64);
    assert((count as u64) as nat == count as nat);
    let d = decimal_text_of(count as nat);
    assert(parsed_u64(d) == Some(count as u64) && click_label_text(count) == "You have clicked "@ + d + " times!"@);
}

/// What the label says before the first click.
pub open spec fn initial_label_text() -> Seq<char> {
    "Click the button to start counting"@
}

/// What the label says after `count` clicks.
pub open spec fn click_label_text(count: usize) -> Seq<char> {
    "You have clicked "@ + decimal_text_of(count as nat) + " times!"@
}

/// The label before the first click.
pub fn initial_label() -> (s: String)
    ensures
        s@ == initial_label_text(),
{
    String::from_str("Click the button to start counting")
}

/// How often the button was clicked.
pub struct ClickCounter {
    count: usize,
}

impl ClickCounter {
    pub closed spec fn spec_count(&self) -> usize {
        self.count
    }

    /// No clicks yet.
    pub fn new() -> (c: Self)
        ensures
            c.spec_count() == 0,
    {
        ClickCounter { count: 0 }
    }

    /// How often the button was clicked.
    pub fn count(&self) -> (n: usize)
        ensures
            n == self.spec_count(),
    {
        self.count
    }

    /// Counts a click, and says what the label says now.
    pub fn click(&mut self) -> (label: String)
        requires
            old(self).spec_count() < usize::MAX,
        ensures
            final(self).spec_count() == old(self).spec_count() + 1,
            label@ == click_label_text(final(self).spec_count()),
            label_shows_count(label@, final(self).spec_count() as u64),
    {
        self.count = self.count + 1;
        let digits = decimal_text(self.count);
        let mut label = String::from_str("You have clicked ");
        label.append(digits.as_str());
        label.append(" times!");
        proof {
            lemma_click_label_shows_count(self.count);
        }
        label
    }
}

} // verus!
