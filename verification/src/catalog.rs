//! Extraction of the account catalog from the lines of a ledger file.
//!
//! A line contributes an account when its whitespace-separated fields are at
//! least three, the first field does not start a comment, and the second
//! field is the keyword `open`; the third field is then the account name.
//! `close` lines are ignored, so closed accounts stay in the catalog.

use crate::text::{spec_split_ws, split_ws, str_to_chars, string_from_chars};
use vstd::prelude::*;

verus! {

pub open spec fn open_keyword() -> Seq<char> {
    seq!['o', 'p', 'e', 'n']
}

/// The account that one ledger line opens, if any.
pub open spec fn spec_open_account(line: Seq<char>) -> Option<Seq<char>> {
    let f = spec_split_ws(line);
    if f.len() < 3 || (f[0].len() > 0 && f[0][0] == ';') {
        None
    } else if f[1] == open_keyword() {
        Some(f[2])
    } else {
        None
    }
}

/// The accounts opened by the given lines, in file order.
pub open spec fn spec_accounts_from_lines(lines: Seq<Seq<char>>) -> Seq<Seq<char>>
    decreases lines.len(),
{
    if lines.len() == 0 {
        Seq::empty()
    } else {
        let rest = spec_accounts_from_lines(lines.drop_last());
        match spec_open_account(lines.last()) {
            Some(a) => rest.push(a),
            None => rest,
        }
    }
}

/// Whether the field is exactly the keyword `open`.
fn is_open_keyword(f: &Vec<char>) -> (r: bool)
    ensures
        r == (f@ == open_keyword()),
{
    if f.len() != 4 {
        proof {
            assert(f@ != open_keyword());
        }
        return false;
    }
    let r = f[0] == 'o' && f[1] == 'p' && f[2] == 'e' && f[3] == 'n';
    proof {
        if r {
            assert(f@ =~= open_keyword());
        } else {
            assert(f@ != open_keyword());
        }
    }
    r
}

/// Scans ledger lines for `open` directives and collects the opened
/// account names, in order.
#[verifier::loop_isolation(false)]
pub fn accounts_from_lines(lines: &Vec<String>) -> (r: Vec<String>)
    ensures
        r.deep_view() == spec_accounts_from_lines(lines.deep_view()),
{
    let ghost lv = lines.deep_view();
    let n = lines.len();
    let mut out: Vec<String> = Vec::new();
    let mut i: usize = 0;
    while i < n
        invariant
            i <= n,
            n == lv.len(),
            out.deep_view() == spec_accounts_from_lines(lv.subrange(0, i as int)),
        decreases n - i,
    {
        let ghost old_out = out.deep_view();
        let chars = str_to_chars(lines[i].as_str());
        let fields = split_ws(&chars);
        proof {
            assert(fields.deep_view() == spec_split_ws(lv[i as int]));
        }
        if fields.len() >= 3 {
            let comment = fields[0].len() > 0 && fields[0][0] == ';';
            proof {
                assert(fields@[0]@ == spec_split_ws(lv[i as int])[0]);
                assert(fields@[1]@ == spec_split_ws(lv[i as int])[1]);
                assert(fields@[2]@ == spec_split_ws(lv[i as int])[2]);
            }
            if !comment && is_open_keyword(&fields[1]) {
                let name = string_from_chars(&fields[2]);
                out.push(name);
                proof {
                    assert(out.deep_view() =~~= old_out.push(
                        spec_open_account(lv[i as int]).unwrap(),
                    ));
                }
            }
        }
        proof {
            assert(lv.subrange(0, i + 1).drop_last() =~= lv.subrange(0, i as int));
            assert(lv.subrange(0, i + 1).last() == lv[i as int]);
        }
        i = i + 1;
    }
    proof {
        assert(lv.subrange(0, n as int) =~= lv);
    }
    out
}

} // verus!
