//! Resolution of a short user-typed search term against the catalog of
//! known account names.
//!
//! An account matches a term when its lowercased full name contains every
//! whitespace-separated subterm of the lowercased term.  Resolution filters
//! the catalog by match and by leg kind (expense or not), succeeds only on
//! a unique candidate, and on ties narrows once more by the account's last
//! colon-separated component before giving up as ambiguous.

use crate::text::{
    contains_sub, has_substring, lower_of, lowercase, push_all, spec_split_ws, split_ws,
    str_to_chars, string_from_chars,
};
use vstd::prelude::*;
use vstd::string::StrSliceExecFns;
use vstd::string::StringExecFns;

verus! {

/// The last colon-separated component of an account name, or the whole
/// name when it has no colon.
pub open spec fn spec_last_component(s: Seq<char>) -> Seq<char>
    decreases s.len(),
{
    if s.len() == 0 {
        s
    } else if s.last() == ':' {
        s.subrange(s.len() as int, s.len() as int)
    } else {
        spec_last_component(s.drop_last()).push(s.last())
    }
}

pub proof fn lemma_last_component_no_colon(s: Seq<char>)
    requires
        forall|k: int| 0 <= k < s.len() ==> s[k] != ':',
    ensures
        spec_last_component(s) == s,
    decreases s.len(),
{
    if s.len() == 0 {
    } else {
        assert(s.last() != ':');
        lemma_last_component_no_colon(s.drop_last());
        assert(s.drop_last().push(s.last()) =~= s);
    }
}

pub proof fn lemma_last_component_after_colon(s: Seq<char>, p: int)
    requires
        0 <= p < s.len(),
        s[p] == ':',
        forall|k: int| p < k < s.len() ==> s[k] != ':',
    ensures
        spec_last_component(s) == s.subrange(p + 1, s.len() as int),
    decreases s.len(),
{
    if p == s.len() - 1 {
        assert(s.last() == ':');
    } else {
        assert(s.last() != ':');
        lemma_last_component_after_colon(s.drop_last(), p);
        assert(s.drop_last().subrange(p + 1, s.len() - 1).push(s.last()) =~= s.subrange(
            p + 1,
            s.len() as int,
        ));
    }
}

/// The text after the last colon of `s`, or all of `s` without a colon.
#[verifier::loop_isolation(false)]
pub fn last_component(s: &str) -> (r: &str)
    ensures
        r@ == spec_last_component(s@),
{
    let n = s.unicode_len();
    let mut last: usize = 0;
    let mut found = false;
    let mut i: usize = 0;
    while i < n
        invariant
            i <= n,
            n == s@.len(),
            found ==> last < i && s@[last as int] == ':' && (forall|k: int|
                last < k < i ==> s@[k] != ':'),
            !found ==> forall|k: int| 0 <= k < i ==> s@[k] != ':',
        decreases n - i,
    {
        if s.get_char(i) == ':' {
            last = i;
            found = true;
        }
        i = i + 1;
    }
    if found {
        proof {
            lemma_last_component_after_colon(s@, last as int);
        }
        s.substring_char(last + 1, n)
    } else {
        proof {
            lemma_last_component_no_colon(s@);
        }
        s
    }
}

/// Whether `prefix` is a prefix of `s`.
pub open spec fn spec_starts_with(s: Seq<char>, prefix: Seq<char>) -> bool {
    prefix.len() <= s.len() && s.subrange(0, prefix.len() as int) == prefix
}

/// The fixed prefix that classifies an account as an expense account.
pub open spec fn expenses_prefix() -> Seq<char> {
    seq!['E', 'x', 'p', 'e', 'n', 's', 'e', 's', ':']
}

pub open spec fn is_expense(a: Seq<char>) -> bool {
    spec_starts_with(a, expenses_prefix())
}

/// Whether the account name starts with the expense prefix `Expenses:`.
#[verifier::loop_isolation(false)]
pub fn is_expense_account(s: &str) -> (r: bool)
    ensures
        r == is_expense(s@),
{
    let n = s.unicode_len();
    if n < 9 {
        return false;
    }
    let prefix = ['E', 'x', 'p', 'e', 'n', 's', 'e', 's', ':'];
    let mut i: usize = 0;
    while i < 9
        invariant
            i <= 9,
            9 <= n == s@.len(),
            forall|k: int| 0 <= k < i ==> s@[k] == expenses_prefix()[k],
        decreases 9 - i,
    {
        if s.get_char(i) != prefix[i] {
            proof {
                assert(s@.subrange(0, 9)[i as int] == s@[i as int]);
            }
            return false;
        }
        i = i + 1;
    }
    proof {
        assert(s@.subrange(0, 9) =~= expenses_prefix());
    }
    true
}

/// Whether the lowercased account name contains every whitespace-separated
/// subterm of the (already lowercased) search term as a substring.
pub open spec fn spec_matches(account_low: Seq<char>, term: Seq<char>) -> bool {
    forall|k: int|
        0 <= k < spec_split_ws(term).len() ==> has_substring(
            account_low,
            #[trigger] spec_split_ws(term)[k],
        )
}

/// Whether `account` matches the lowercased search term `term`: every
/// subterm of `term` must appear in the lowercased account name.
#[verifier::loop_isolation(false)]
pub fn account_matches(account: &str, term: &str) -> (r: bool)
    ensures
        r == spec_matches(lower_of(account@), term@),
{
    let low = lowercase(account);
    let low_chars = str_to_chars(low.as_str());
    let term_chars = str_to_chars(term);
    let subterms = split_ws(&term_chars);
    let n = subterms.len();
    let mut k: usize = 0;
    while k < n
        invariant
            k <= n,
            n == spec_split_ws(term@).len(),
            subterms.deep_view() == spec_split_ws(term@),
            low_chars@ == lower_of(account@),
            forall|k2: int|
                0 <= k2 < k ==> has_substring(
                    lower_of(account@),
                    #[trigger] spec_split_ws(term@)[k2],
                ),
        decreases n - k,
    {
        if !contains_sub(&low_chars, &subterms[k]) {
            proof {
                assert(subterms@[k as int]@ == spec_split_ws(term@)[k as int]);
            }
            return false;
        }
        proof {
            assert(subterms@[k as int]@ == spec_split_ws(term@)[k as int]);
        }
        k = k + 1;
    }
    true
}

/// Resolution failure: no candidate, or several that even the
/// last-component pass could not tell apart.
#[derive(Debug)]
pub enum FilterError {
    NoMatch,
    AmbiguousFull(Vec<String>),
    AmbiguousLeaf(Vec<String>),
}

/// The spec-level outcome of account resolution.
pub enum FilterOutcome {
    Found(Seq<char>),
    NoMatch,
    AmbiguousFull(Seq<Seq<char>>),
    AmbiguousLeaf(Seq<Seq<char>>),
}

/// What an exec resolution failure states, as a spec-level outcome.
pub open spec fn filter_error_view(e: &FilterError) -> FilterOutcome {
    match e {
        FilterError::NoMatch => FilterOutcome::NoMatch,
        FilterError::AmbiguousFull(v) => FilterOutcome::AmbiguousFull(v.deep_view()),
        FilterError::AmbiguousLeaf(v) => FilterOutcome::AmbiguousLeaf(v.deep_view()),
    }
}

/// What an exec resolution result states, as a spec-level outcome.
pub open spec fn filter_result_view(r: &Result<String, FilterError>) -> FilterOutcome {
    match r {
        Ok(s) => FilterOutcome::Found(s@),
        Err(e) => filter_error_view(e),
    }
}

/// Whether the account belongs in the candidate set: it matches the term
/// and sits on the requested side of the expense line.
pub open spec fn candidate(a: Seq<char>, term_low: Seq<char>, expense: bool) -> bool {
    spec_matches(lower_of(a), term_low) && is_expense(a) == expense
}

/// The candidate accounts, in catalog order.
pub open spec fn filtered(accs: Seq<Seq<char>>, term_low: Seq<char>, expense: bool) -> Seq<
    Seq<char>,
>
    decreases accs.len(),
{
    if accs.len() == 0 {
        Seq::empty()
    } else {
        let rest = filtered(accs.drop_last(), term_low, expense);
        if candidate(accs.last(), term_low, expense) {
            rest.push(accs.last())
        } else {
            rest
        }
    }
}

/// Whether the account's last colon-separated component alone matches.
pub open spec fn leaf_matches(a: Seq<char>, term_low: Seq<char>) -> bool {
    spec_matches(lower_of(spec_last_component(a)), term_low)
}

/// The candidates whose last component alone still matches, in order.
pub open spec fn leaf_filtered(m: Seq<Seq<char>>, term_low: Seq<char>) -> Seq<Seq<char>>
    decreases m.len(),
{
    if m.len() == 0 {
        Seq::empty()
    } else {
        let rest = leaf_filtered(m.drop_last(), term_low);
        if leaf_matches(m.last(), term_low) {
            rest.push(m.last())
        } else {
            rest
        }
    }
}

/// The resolution of `term_low` against the catalog: a unique full-name
/// candidate wins; several candidates are narrowed by last component, where
/// again only a unique winner is accepted.
pub open spec fn spec_filter_account(
    accs: Seq<Seq<char>>,
    term_low: Seq<char>,
    expense: bool,
) -> FilterOutcome {
    let m = filtered(accs, term_low, expense);
    if m.len() == 0 {
        FilterOutcome::NoMatch
    } else if m.len() == 1 {
        FilterOutcome::Found(m[0])
    } else {
        let lm = leaf_filtered(m, term_low);
        if lm.len() == 0 {
            FilterOutcome::AmbiguousFull(m)
        } else if lm.len() == 1 {
            FilterOutcome::Found(lm[0])
        } else {
            FilterOutcome::AmbiguousLeaf(lm)
        }
    }
}

/// An account name between double quotes.
pub open spec fn spec_quoted(a: Seq<char>) -> Seq<char> {
    seq!['"'] + a + seq!['"']
}

pub open spec fn spec_list_items(v: Seq<Seq<char>>) -> Seq<char>
    decreases v.len(),
{
    if v.len() == 0 {
        Seq::empty()
    } else if v.len() == 1 {
        spec_quoted(v[0])
    } else {
        spec_list_items(v.drop_last()) + seq![',', ' '] + spec_quoted(v.last())
    }
}

/// A bracketed, comma-separated list of quoted account names, the way the
/// candidate lists of ambiguity errors are reported.  Names are written
/// verbatim, without escaping.
pub open spec fn spec_list(v: Seq<Seq<char>>) -> Seq<char> {
    seq!['['] + spec_list_items(v) + seq![']']
}

/// Renders candidate names as `["A", "B"]`.
#[verifier::loop_isolation(false)]
fn render_list(v: &Vec<String>) -> (r: String)
    ensures
        r@ == spec_list(v.deep_view()),
{
    let ghost vv = v.deep_view();
    let n = v.len();
    let mut out: Vec<char> = Vec::new();
    out.push('[');
    let mut i: usize = 0;
    while i < n
        invariant
            i <= n,
            n == vv.len(),
            out@ == seq!['['] + spec_list_items(vv.subrange(0, i as int)),
        decreases n - i,
    {
        let ghost before = out@;
        if i > 0 {
            out.push(',');
            out.push(' ');
        }
        out.push('"');
        let item = str_to_chars(v[i].as_str());
        push_all(&mut out, &item);
        out.push('"');
        proof {
            let pre = vv.subrange(0, i as int);
            let cur = vv.subrange(0, i + 1);
            assert(cur.drop_last() =~= pre);
            assert(cur.last() == vv[i as int]);
            if i == 0 {
                assert(out@ =~= seq!['['] + spec_quoted(vv[0]));
                assert(cur.len() == 1 && cur[0] == vv[0]);
            } else {
                assert(out@ =~= seq!['['] + (spec_list_items(pre) + seq![',', ' '] + spec_quoted(
                    vv[i as int],
                )));
            }
        }
        i = i + 1;
    }
    out.push(']');
    proof {
        assert(vv.subrange(0, n as int) =~= vv);
        assert(out@ =~= seq!['['] + spec_list_items(vv) + seq![']']);
    }
    string_from_chars(&out)
}

/// The user-facing description of a resolution failure.
pub open spec fn spec_filter_message(e: &FilterError) -> Seq<char> {
    match e {
        FilterError::NoMatch => "No matched account"@,
        FilterError::AmbiguousFull(v) => "More than one matched account: "@ + spec_list(
            v.deep_view(),
        ),
        FilterError::AmbiguousLeaf(v) => "More than one last-component matched account: "@
            + spec_list(v.deep_view()),
    }
}

impl FilterError {
    /// The user-facing description of this error, candidate list included.
    pub fn message(&self) -> (r: String)
        ensures
            r@ == spec_filter_message(self),
    {
        match self {
            FilterError::NoMatch => String::from_str("No matched account"),
            FilterError::AmbiguousFull(v) => {
                let mut s = String::from_str("More than one matched account: ");
                s.append(render_list(v).as_str());
                s
            },
            FilterError::AmbiguousLeaf(v) => {
                let mut s = String::from_str("More than one last-component matched account: ");
                s.append(render_list(v).as_str());
                s
            },
        }
    }
}

/// The accounts whose lowercased name matches the lowercased free-form
/// query, in catalog order; an empty query keeps every account.
pub open spec fn query_filtered(accs: Seq<Seq<char>>, query_low: Seq<char>) -> Seq<Seq<char>>
    decreases accs.len(),
{
    if accs.len() == 0 {
        Seq::empty()
    } else {
        let rest = query_filtered(accs.drop_last(), query_low);
        if spec_matches(lower_of(accs.last()), query_low) {
            rest.push(accs.last())
        } else {
            rest
        }
    }
}

/// Lists the accounts that match a free-form query, for browsing the
/// catalog; with an empty query all accounts are listed.
#[verifier::loop_isolation(false)]
pub fn search_accounts(accounts: &Vec<String>, query: &str) -> (r: Vec<String>)
    ensures
        r.deep_view() == query_filtered(accounts.deep_view(), lower_of(query@)),
{
    let ghost accv = accounts.deep_view();
    let query_low = lowercase(query);
    let n = accounts.len();
    let mut out: Vec<String> = Vec::new();
    let mut i: usize = 0;
    while i < n
        invariant
            i <= n,
            n == accv.len(),
            query_low@ == lower_of(query@),
            out.deep_view() == query_filtered(accv.subrange(0, i as int), lower_of(query@)),
        decreases n - i,
    {
        let ghost old_out = out.deep_view();
        let ac = &accounts[i];
        if account_matches(ac.as_str(), query_low.as_str()) {
            out.push(ac.clone());
            proof {
                assert(out.deep_view() =~~= old_out.push(accv[i as int]));
            }
        }
        proof {
            assert(accv.subrange(0, i + 1).drop_last() =~= accv.subrange(0, i as int));
            assert(accv.subrange(0, i + 1).last() == accv[i as int]);
        }
        i = i + 1;
    }
    proof {
        assert(accv.subrange(0, n as int) =~= accv);
    }
    out
}

/// Resolves `term` to exactly one account of the catalog, keeping only
/// expense accounts when `expense` is set and only the others when it is
/// not.
#[verifier::loop_isolation(false)]
pub fn filter_account(accounts: &Vec<String>, term: &str, expense: bool) -> (r: Result<
    String,
    FilterError,
>)
    ensures
        filter_result_view(&r) == spec_filter_account(
            accounts.deep_view(),
            lower_of(term@),
            expense,
        ),
{
    let ghost accv = accounts.deep_view();
    let ghost tl = lower_of(term@);
    let term_low = lowercase(term);
    let n = accounts.len();
    let mut matched: Vec<String> = Vec::new();
    let mut i: usize = 0;
    while i < n
        invariant
            i <= n,
            n == accv.len(),
            term_low@ == tl,
            matched.deep_view() == filtered(accv.subrange(0, i as int), tl, expense),
        decreases n - i,
    {
        let ghost old_m = matched.deep_view();
        let ac = &accounts[i];
        if account_matches(ac.as_str(), term_low.as_str()) && is_expense_account(ac.as_str())
            == expense {
            matched.push(ac.clone());
            proof {
                assert(matched.deep_view() =~~= old_m.push(accv[i as int]));
            }
        }
        proof {
            assert(accv.subrange(0, i + 1).drop_last() =~= accv.subrange(0, i as int));
            assert(accv.subrange(0, i + 1).last() == accv[i as int]);
        }
        i = i + 1;
    }
    proof {
        assert(accv.subrange(0, n as int) =~= accv);
    }
    if matched.len() == 0 {
        return Err(FilterError::NoMatch);
    }
    if matched.len() == 1 {
        return Ok(matched[0].clone());
    }
    let ghost mv = matched.deep_view();
    let m = matched.len();
    let mut leaf: Vec<String> = Vec::new();
    let mut i: usize = 0;
    while i < m
        invariant
            i <= m,
            m == mv.len(),
            term_low@ == tl,
            matched.deep_view() == mv,
            matched@.len() == m,
            leaf.deep_view() == leaf_filtered(mv.subrange(0, i as int), tl),
        decreases m - i,
    {
        let ghost old_l = leaf.deep_view();
        let ac = &matched[i];
        if account_matches(last_component(ac.as_str()), term_low.as_str()) {
            leaf.push(ac.clone());
            proof {
                assert(leaf.deep_view() =~~= old_l.push(mv[i as int]));
            }
        }
        proof {
            assert(mv.subrange(0, i + 1).drop_last() =~= mv.subrange(0, i as int));
            assert(mv.subrange(0, i + 1).last() == mv[i as int]);
        }
        i = i + 1;
    }
    proof {
        assert(mv.subrange(0, m as int) =~= mv);
    }
    if leaf.len() == 0 {
        Err(FilterError::AmbiguousFull(matched))
    } else if leaf.len() == 1 {
        Ok(leaf[0].clone())
    } else {
        Err(FilterError::AmbiguousLeaf(leaf))
    }
}

proof fn lemma_filtered_members(accs: Seq<Seq<char>>, term_low: Seq<char>, expense: bool)
    ensures
        forall|i: int|
            0 <= i < filtered(accs, term_low, expense).len() ==> accs.contains(
                #[trigger] filtered(accs, term_low, expense)[i],
            ) && candidate(filtered(accs, term_low, expense)[i], term_low, expense),
    decreases accs.len(),
{
    if accs.len() > 0 {
        lemma_filtered_members(accs.drop_last(), term_low, expense);
        let f = filtered(accs, term_low, expense);
        let fd = filtered(accs.drop_last(), term_low, expense);
        assert forall|i: int| 0 <= i < f.len() implies accs.contains(#[trigger] f[i]) && candidate(
            f[i],
            term_low,
            expense,
        ) by {
            if i < fd.len() {
                assert(accs.drop_last().contains(fd[i]) && candidate(fd[i], term_low, expense));
                let k = choose|k: int|
                    0 <= k < accs.drop_last().len() && accs.drop_last()[k] == fd[i];
                assert(accs[k] == fd[i]);
            } else {
                assert(f[i] == accs.last());
                assert(accs[accs.len() - 1] == accs.last());
            }
        }
    }
}

proof fn lemma_leaf_filtered_members(m: Seq<Seq<char>>, term_low: Seq<char>)
    ensures
        forall|i: int|
            0 <= i < leaf_filtered(m, term_low).len() ==> m.contains(
                #[trigger] leaf_filtered(m, term_low)[i],
            ) && leaf_matches(leaf_filtered(m, term_low)[i], term_low),
    decreases m.len(),
{
    if m.len() > 0 {
        lemma_leaf_filtered_members(m.drop_last(), term_low);
        let f = leaf_filtered(m, term_low);
        let fd = leaf_filtered(m.drop_last(), term_low);
        assert forall|i: int| 0 <= i < f.len() implies m.contains(#[trigger] f[i]) && leaf_matches(
            f[i],
            term_low,
        ) by {
            if i < fd.len() {
                assert(m.drop_last().contains(fd[i]) && leaf_matches(fd[i], term_low));
                let k = choose|k: int| 0 <= k < m.drop_last().len() && m.drop_last()[k] == fd[i];
                assert(m[k] == fd[i]);
            } else {
                assert(f[i] == m.last());
                assert(m[m.len() - 1] == m.last());
            }
        }
    }
}

/// The resolver never invents or misclassifies an account: whatever it
/// finds is an account of the catalog that matches the term and stands on
/// the requested side of the expense line.
pub proof fn lemma_found_is_sound(accs: Seq<Seq<char>>, term_low: Seq<char>, expense: bool)
    ensures
        spec_filter_account(accs, term_low, expense) matches FilterOutcome::Found(a)
            ==> accs.contains(a) && spec_matches(lower_of(a), term_low) && is_expense(a)
            == expense,
{
    lemma_filtered_members(accs, term_low, expense);
    let m = filtered(accs, term_low, expense);
    if m.len() > 1 {
        lemma_leaf_filtered_members(m, term_low);
        let lm = leaf_filtered(m, term_low);
        if lm.len() == 1 {
            assert(m.contains(lm[0]));
            let k = choose|k: int| 0 <= k < m.len() && m[k] == lm[0];
            assert(accs.contains(m[k]) && candidate(m[k], term_low, expense));
        }
    }
}

} // verus!
