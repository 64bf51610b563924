//! Decimal number values carried through the wire format.
//!
//! Similarity scores, sampling parameters and penalties are decimal numbers
//! whose exact wire text matters and on which this crate never computes. A
//! [`NumberText`] holds such a number as its decimal text, kept verbatim
//! through encoding and decoding.
use vstd::prelude::*;
use crate::json::{is_number_char, number_token_wf};

verus! {

/// A decimal number held as its exact JSON text, for example `0.5` or `-1e3`.
#[derive(Debug, Clone, PartialEq)]
pub struct NumberText {
    pub text: String,
}

impl View for NumberText {
    type V = Seq<char>;

    open spec fn view(&self) -> Seq<char> {
        self.text@
    }
}

impl NumberText {
    /// The stored text is a plausible number token: non-empty, number
    /// characters only, opening with a digit or a minus sign.
    pub open spec fn wf(self) -> bool {
        number_token_wf(self@)
    }

    /// Accepts the given text when it has the shape of a number token.
    pub fn new(text: &str) -> (r: Option<NumberText>)
        ensures
            match r {
                Some(v) => v@ == text@ && number_token_wf(text@),
                None => !number_token_wf(text@),
            },
    {
        let n = text.unicode_len();
        if n == 0 {
            return None;
        }
        let c0 = text.get_char(0);
        let n0 = c0 as u32;
        if !((48 <= n0 && n0 <= 57) || c0 == '-') {
            return None;
        }
        let mut k: usize = 0;
        while k < n
            invariant
                0 <= k <= n,
                n == text@.len(),
                forall|m: int| 0 <= m < k ==> is_number_char(#[trigger] text@[m]),
            decreases n - k,
        {
            let c = text.get_char(k);
            let cc = c as u32;
            if !((48 <= cc && cc <= 57) || c == '-' || c == '+' || c == '.' || c == 'e' || c == 'E')
            {
                return None;
            }
            k = k + 1;
        }
        Some(NumberText { text: String::from_str(text) })
    }

    /// The neutral sampling value, `1.0`.
    pub fn one() -> (r: NumberText)
        ensures
            r@ == "1.0"@,
            r.wf(),
    {
        proof {
            lemma_one_zero_wf();
        }
        NumberText { text: String::from_str("1.0") }
    }

    /// The neutral penalty value, `0.0`.
    pub fn zero() -> (r: NumberText)
        ensures
            r@ == "0.0"@,
            r.wf(),
    {
        proof {
            lemma_one_zero_wf();
        }
        NumberText { text: String::from_str("0.0") }
    }
}

/// The two neutral value texts are well-shaped number tokens.
pub proof fn lemma_one_zero_wf()
    ensures
        number_token_wf("1.0"@),
        number_token_wf("0.0"@),
{
    reveal_strlit("1.0");
    reveal_strlit("0.0");
    assert forall|i: int| 0 <= i < "1.0"@.len() implies is_number_char(#[trigger] "1.0"@[i]) by {
        if i == 0 {
            assert("1.0"@[0] == '1');
        } else if i == 1 {
            assert("1.0"@[1] == '.');
        } else {
            assert("1.0"@[2] == '0');
        }
    }
    assert forall|i: int| 0 <= i < "0.0"@.len() implies is_number_char(#[trigger] "0.0"@[i]) by {
        if i == 0 {
            assert("0.0"@[0] == '0');
        } else if i == 1 {
            assert("0.0"@[1] == '.');
        } else {
            assert("0.0"@[2] == '0');
        }
    }
    assert("1.0"@[0] == '1');
    assert("0.0"@[0] == '0');
}

} // verus!
