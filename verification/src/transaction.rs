//! Ledger transactions: a date, an optional payee, a narration, tags, and
//! exactly two postings, built from tokenized command arguments and
//! rendered as canonical ledger text.
//!
//! The command grammar, in order: an optional `>payee` token, any number of
//! `#tag` tokens, then the amount, the source-account term, the
//! expense-account term, and finally the narration tokens, joined with
//! single spaces.

use crate::account::{
    filter_account, filter_error_view, spec_filter_account, FilterError, FilterOutcome,
};
use crate::amount::{
    dec_str, fmt_u128_padded, number_wf, spec_neg, spec_parse_amount, spec_render_amount, zero_pad,
    Amount, AmountView,
};
use crate::text::{lower_of, push_all, str_to_chars, string_from_chars};
use crate::tokenizer::{escape_string, spec_escape};
use vstd::prelude::*;
use vstd::string::StrSliceExecFns;
use vstd::string::StringExecFns;

verus! {

/// A calendar date, supplied by the caller as today's date.
#[derive(Clone, Copy, Debug, PartialEq, Eq, Structural)]
pub struct Date {
    pub year: u32,
    pub month: u32,
    pub day: u32,
}

/// A plausible calendar date that renders as four-digit year, two-digit
/// month and two-digit day.
pub open spec fn date_wf(d: Date) -> bool {
    d.year <= 9999 && 1 <= d.month <= 12 && 1 <= d.day <= 31
}

/// One leg of a transaction: an account and the amount posted to it.
#[derive(Debug)]
pub struct Posting {
    pub account: String,
    pub amount: Amount,
}

#[verifier::ext_equal]
pub struct PostingView {
    pub account: Seq<char>,
    pub amount: AmountView,
}

impl View for Posting {
    type V = PostingView;

    open spec fn view(&self) -> PostingView {
        PostingView { account: self.account@, amount: self.amount@ }
    }
}

impl Posting {
    pub fn new(account: String, amount: Amount) -> (r: Posting)
        ensures
            r@ == (PostingView { account: account@, amount: amount@ }),
    {
        Posting { account, amount }
    }
}

/// A double-entry record: date, optional payee, narration, tags, and the
/// expense and source legs, in that order.
#[derive(Debug)]
pub struct Transaction {
    pub date: Date,
    pub payee: Option<String>,
    pub narration: String,
    pub tags: Vec<String>,
    pub postings: Vec<Posting>,
}

#[verifier::ext_equal]
pub struct TransactionView {
    pub date: Date,
    pub payee: Option<Seq<char>>,
    pub narration: Seq<char>,
    pub tags: Seq<Seq<char>>,
    pub postings: Seq<PostingView>,
}

impl View for Transaction {
    type V = TransactionView;

    open spec fn view(&self) -> TransactionView {
        TransactionView {
            date: self.date,
            payee: match self.payee {
                Some(p) => Some(p@),
                None => None,
            },
            narration: self.narration@,
            tags: self.tags.deep_view(),
            postings: Seq::new(self.postings@.len(), |i: int| self.postings@[i]@),
        }
    }
}

/// Every amount of the transaction is within the number limits.
pub open spec fn transaction_wf(t: TransactionView) -> bool {
    forall|i: int| 0 <= i < t.postings.len() ==> number_wf(#[trigger] t.postings[i].amount.number)
}

/// The required argument slot that a too-short command is missing.
#[derive(Clone, Copy, Debug, PartialEq, Eq, Structural)]
pub enum Field {
    Amount,
    Account,
    ExpenseAccount,
}

/// Why a command could not be built into a transaction.
#[derive(Debug)]
pub enum BuildError {
    NotEnoughArguments(Field),
    InvalidAmount(String),
    InvalidSourceAccount(FilterError),
    InvalidExpenseAccount(FilterError),
}

/// The spec-level shape of a build failure.
pub enum BuildErrorView {
    NotEnoughArguments(Field),
    InvalidAmount(Seq<char>),
    InvalidSourceAccount(FilterOutcome),
    InvalidExpenseAccount(FilterOutcome),
}

pub open spec fn build_error_view(e: &BuildError) -> BuildErrorView {
    match e {
        BuildError::NotEnoughArguments(f) => BuildErrorView::NotEnoughArguments(*f),
        BuildError::InvalidAmount(t) => BuildErrorView::InvalidAmount(t@),
        BuildError::InvalidSourceAccount(fe) => BuildErrorView::InvalidSourceAccount(
            filter_error_view(fe),
        ),
        BuildError::InvalidExpenseAccount(fe) => BuildErrorView::InvalidExpenseAccount(
            filter_error_view(fe),
        ),
    }
}

pub open spec fn starts_gt(t: Seq<char>) -> bool {
    t.len() > 0 && t[0] == '>'
}

pub open spec fn starts_hash(t: Seq<char>) -> bool {
    t.len() > 0 && t[0] == '#'
}

/// The payee named by a leading `>` token, its marker stripped.
pub open spec fn spec_payee(cmds: Seq<Seq<char>>) -> Option<Seq<char>> {
    if cmds.len() > 0 && starts_gt(cmds[0]) {
        Some(cmds[0].drop_first())
    } else {
        None
    }
}

pub open spec fn spec_tags_start(cmds: Seq<Seq<char>>) -> int {
    if spec_payee(cmds) is Some {
        1
    } else {
        0
    }
}

/// The index of the first non-`#` token at or after `i`.
pub open spec fn spec_tags_end(cmds: Seq<Seq<char>>, i: int) -> int
    decreases cmds.len() - i,
{
    if 0 <= i && i < cmds.len() && starts_hash(cmds[i]) {
        spec_tags_end(cmds, i + 1)
    } else {
        i
    }
}

/// The tokens joined with single spaces.
pub open spec fn spec_join(xs: Seq<Seq<char>>) -> Seq<char>
    decreases xs.len(),
{
    if xs.len() == 0 {
        Seq::empty()
    } else if xs.len() == 1 {
        xs[0]
    } else {
        spec_join(xs.drop_last()) + seq![' '] + xs.last()
    }
}

/// What building a transaction from command tokens yields: the payee and
/// tag prefix is read off, then the amount, source term and expense term
/// are required in order (argument-count errors first), the amount is
/// parsed against the default currency, both accounts are resolved, the
/// remaining tokens join into the narration, and the two postings are the
/// expense leg with the amount and the source leg with its negation.
pub open spec fn spec_build(
    cmds: Seq<Seq<char>>,
    accounts: Seq<Seq<char>>,
    default_currency: Seq<char>,
    today: Date,
) -> Result<TransactionView, BuildErrorView> {
    let payee = spec_payee(cmds);
    let ts = spec_tags_start(cmds);
    let te = spec_tags_end(cmds, ts);
    if te >= cmds.len() {
        Err(BuildErrorView::NotEnoughArguments(Field::Amount))
    } else if te + 1 >= cmds.len() {
        Err(BuildErrorView::NotEnoughArguments(Field::Account))
    } else if te + 2 >= cmds.len() {
        Err(BuildErrorView::NotEnoughArguments(Field::ExpenseAccount))
    } else {
        match spec_parse_amount(cmds[te], default_currency) {
            None => Err(BuildErrorView::InvalidAmount(cmds[te])),
            Some(amount) => match spec_filter_account(accounts, lower_of(cmds[te + 1]), false) {
                FilterOutcome::Found(src) => match spec_filter_account(
                    accounts,
                    lower_of(cmds[te + 2]),
                    true,
                ) {
                    FilterOutcome::Found(exp) => Ok(
                        TransactionView {
                            date: today,
                            payee,
                            narration: spec_join(cmds.subrange(te + 3, cmds.len() as int)),
                            tags: cmds.subrange(ts, te),
                            postings: seq![
                                PostingView { account: exp, amount },
                                PostingView { account: src, amount: spec_neg(amount) },
                            ],
                        },
                    ),
                    e => Err(BuildErrorView::InvalidExpenseAccount(e)),
                },
                e => Err(BuildErrorView::InvalidSourceAccount(e)),
            },
        }
    }
}

/// Whether the token starts with `#`.
fn starts_with_hash(s: &String) -> (r: bool)
    ensures
        r == starts_hash(s@),
{
    s.as_str().unicode_len() > 0 && s.as_str().get_char(0) == '#'
}

pub open spec fn payee_view(p: &Option<String>) -> Option<Seq<char>> {
    match p {
        Some(s) => Some(s@),
        None => None,
    }
}

impl Transaction {
    /// Builds the transaction that the command tokens describe, dated
    /// `today`, resolving both account terms against the catalog.
    #[verifier::loop_isolation(false)]
    pub fn today_from_command(
        cmds: &Vec<String>,
        accounts: &Vec<String>,
        default_currency: &str,
        today: Date,
    ) -> (r: Result<Transaction, BuildError>)
        ensures
            match r {
                Ok(t) => spec_build(
                    cmds.deep_view(),
                    accounts.deep_view(),
                    default_currency@,
                    today,
                ) == Ok::<TransactionView, BuildErrorView>(t@) && transaction_wf(t@),
                Err(e) => spec_build(
                    cmds.deep_view(),
                    accounts.deep_view(),
                    default_currency@,
                    today,
                ) == Err::<TransactionView, BuildErrorView>(build_error_view(&e)),
            },
    {
        let ghost cv = cmds.deep_view();
        let n = cmds.len();
        let mut idx: usize = 0;
        let mut payee: Option<String> = None;
        if n > 0 {
            let t0 = cmds[0].as_str();
            let t0_len = t0.unicode_len();
            if t0_len > 0 && t0.get_char(0) == '>' {
                payee = Some(String::from_str(t0.substring_char(1, t0_len)));
                idx = 1;
                proof {
                    assert(cv[0].subrange(1, cv[0].len() as int) =~= cv[0].drop_first());
                }
            }
        }
        proof {
            assert(payee_view(&payee) == spec_payee(cv));
            assert(idx as int == spec_tags_start(cv));
        }
        let ghost ts = idx as int;
        let mut tags: Vec<String> = Vec::new();
        while idx < n && starts_with_hash(&cmds[idx])
            invariant
                ts <= idx <= n,
                n == cv.len(),
                spec_tags_end(cv, ts) == spec_tags_end(cv, idx as int),
                tags.deep_view() == cv.subrange(ts, idx as int),
            decreases n - idx,
        {
            let ghost old_tags = tags.deep_view();
            tags.push(cmds[idx].clone());
            idx = idx + 1;
            proof {
                assert(tags.deep_view() =~~= old_tags.push(cv[idx - 1]));
                assert(tags.deep_view() =~~= cv.subrange(ts, idx as int));
            }
        }
        proof {
            assert(spec_tags_end(cv, idx as int) == idx as int);
        }
        let ghost te = idx as int;
        if idx >= n {
            return Err(BuildError::NotEnoughArguments(Field::Amount));
        }
        if idx + 1 >= n {
            return Err(BuildError::NotEnoughArguments(Field::Account));
        }
        if idx + 2 >= n {
            return Err(BuildError::NotEnoughArguments(Field::ExpenseAccount));
        }
        let mut narr: Vec<char> = Vec::new();
        let mut j = idx + 3;
        while j < n
            invariant
                te + 3 <= j <= n,
                n == cv.len(),
                narr@ == spec_join(cv.subrange(te + 3, j as int)),
            decreases n - j,
        {
            let ghost old_narr = narr@;
            if j > idx + 3 {
                narr.push(' ');
            }
            let piece = str_to_chars(cmds[j].as_str());
            push_all(&mut narr, &piece);
            j = j + 1;
            proof {
                let pre = cv.subrange(te + 3, j - 1);
                let cur = cv.subrange(te + 3, j as int);
                assert(cur.drop_last() =~= pre);
                assert(cur.last() == cv[j - 1]);
                if pre.len() == 0 {
                    assert(narr@ =~= cv[j - 1]);
                } else {
                    assert(narr@ =~= spec_join(pre) + seq![' '] + cv[j - 1]);
                }
            }
        }
        let narration = string_from_chars(&narr);
        let amount = match Amount::from_str(cmds[idx].as_str(), default_currency) {
            None => {
                return Err(BuildError::InvalidAmount(cmds[idx].clone()));
            },
            Some(a) => a,
        };
        let src_acc = match filter_account(accounts, cmds[idx + 1].as_str(), false) {
            Err(e) => {
                return Err(BuildError::InvalidSourceAccount(e));
            },
            Ok(a) => a,
        };
        let exp_acc = match filter_account(accounts, cmds[idx + 2].as_str(), true) {
            Err(e) => {
                return Err(BuildError::InvalidExpenseAccount(e));
            },
            Ok(a) => a,
        };
        let neg = amount.neg();
        let mut postings: Vec<Posting> = Vec::new();
        postings.push(Posting { account: exp_acc, amount });
        postings.push(Posting { account: src_acc, amount: neg });
        let t = Transaction { date: today, payee, narration, tags, postings };
        proof {
            let sb = spec_build(cv, accounts.deep_view(), default_currency@, today);
            assert(t@.postings =~= seq![
                PostingView { account: t.postings@[0].account@, amount: t.postings@[0].amount@ },
                PostingView { account: t.postings@[1].account@, amount: t.postings@[1].amount@ },
            ]);
            assert(sb matches Ok(tv) && tv =~= t@);
        }
        Ok(t)
    }
}

/// The date as `YYYY-MM-DD`, each part zero-padded.
pub open spec fn spec_render_date(d: Date) -> Seq<char> {
    zero_pad(dec_str(d.year as int), 4) + seq!['-'] + zero_pad(dec_str(d.month as int), 2)
        + seq!['-'] + zero_pad(dec_str(d.day as int), 2)
}

/// Renders a date as `YYYY-MM-DD`.
pub fn render_date(d: &Date) -> (r: Vec<char>)
    ensures
        r@ == spec_render_date(*d),
{
    let mut out = fmt_u128_padded(d.year as u128, 4);
    out.push('-');
    let m = fmt_u128_padded(d.month as u128, 2);
    push_all(&mut out, &m);
    out.push('-');
    let dd = fmt_u128_padded(d.day as u128, 2);
    push_all(&mut out, &dd);
    proof {
        assert(out@ =~= spec_render_date(*d));
    }
    out
}

/// One posting line body: `<account> <number> <currency>`.
pub open spec fn spec_render_posting(p: PostingView) -> Seq<char> {
    p.account + seq![' '] + spec_render_amount(p.amount)
}

impl Posting {
    /// The canonical text of this posting: `<account> <amount>`.
    pub fn render(&self) -> (r: String)
        requires
            number_wf(self.amount.number),
        ensures
            r@ == spec_render_posting(self@),
    {
        let mut out = str_to_chars(self.account.as_str());
        out.push(' ');
        let am = str_to_chars(self.amount.render().as_str());
        push_all(&mut out, &am);
        proof {
            assert(out@ =~= spec_render_posting(self@));
        }
        string_from_chars(&out)
    }
}

/// The tags, each preceded by one space.
pub open spec fn spec_render_tags(tags: Seq<Seq<char>>) -> Seq<char>
    decreases tags.len(),
{
    if tags.len() == 0 {
        Seq::empty()
    } else {
        spec_render_tags(tags.drop_last()) + seq![' '] + tags.last()
    }
}

/// The posting lines, each indented four spaces and ended by a newline.
pub open spec fn spec_render_postings(ps: Seq<PostingView>) -> Seq<char>
    decreases ps.len(),
{
    if ps.len() == 0 {
        Seq::empty()
    } else {
        spec_render_postings(ps.drop_last()) + seq![' ', ' ', ' ', ' '] + spec_render_posting(
            ps.last(),
        ) + seq!['\n']
    }
}

/// The durable text of a transaction: the header line
/// `YYYY-MM-DD * ["payee"] "narration" [tags]`, then one indented line per
/// posting; payee and narration are escaped and double-quoted.
pub open spec fn spec_render_transaction(t: TransactionView) -> Seq<char> {
    spec_render_date(t.date) + seq![' ', '*'] + (match t.payee {
        Some(p) => seq![' ', '"'] + spec_escape(p) + seq!['"'],
        None => Seq::empty(),
    }) + seq![' ', '"'] + spec_escape(t.narration) + seq!['"'] + spec_render_tags(t.tags) + seq![
        '\n',
    ] + spec_render_postings(t.postings)
}

impl Transaction {
    /// The canonical multi-line text of this transaction, as appended to
    /// the ledger.
    #[verifier::loop_isolation(false)]
    #[verifier::rlimit(60)]
    pub fn render(&self) -> (r: String)
        requires
            transaction_wf(self@),
        ensures
            r@ == spec_render_transaction(self@),
    {
        let mut out = render_date(&self.date);
        out.push(' ');
        out.push('*');
        match &self.payee {
            Some(p) => {
                out.push(' ');
                out.push('"');
                let ep = str_to_chars(escape_string(p.as_str()).as_str());
                push_all(&mut out, &ep);
                out.push('"');
            },
            None => {},
        }
        out.push(' ');
        out.push('"');
        let en = str_to_chars(escape_string(self.narration.as_str()).as_str());
        push_all(&mut out, &en);
        out.push('"');
        let ghost head = spec_render_date(self@.date) + seq![' ', '*'] + (match self@.payee {
            Some(p) => seq![' ', '"'] + spec_escape(p) + seq!['"'],
            None => Seq::<char>::empty(),
        }) + seq![' ', '"'] + spec_escape(self@.narration) + seq!['"'];
        proof {
            assert(out@ =~= head);
        }
        let nt = self.tags.len();
        let mut i: usize = 0;
        while i < nt
            invariant
                i <= nt,
                nt == self@.tags.len(),
                out@ == head + spec_render_tags(self@.tags.subrange(0, i as int)),
            decreases nt - i,
        {
            out.push(' ');
            let tg = str_to_chars(self.tags[i].as_str());
            push_all(&mut out, &tg);
            i = i + 1;
            proof {
                let pre = self@.tags.subrange(0, i - 1);
                let cur = self@.tags.subrange(0, i as int);
                assert(cur.drop_last() =~= pre);
                assert(cur.last() == self@.tags[i - 1]);
                assert(self.tags@[i - 1]@ == self@.tags[i - 1]);
                assert(out@ =~= head + (spec_render_tags(pre) + seq![' '] + self@.tags[i - 1]));
            }
        }
        out.push('\n');
        let ghost head2 = head + spec_render_tags(self@.tags) + seq!['\n'];
        proof {
            assert(self@.tags.subrange(0, nt as int) =~= self@.tags);
            assert(out@ =~= head2);
        }
        let np = self.postings.len();
        let mut i: usize = 0;
        while i < np
            invariant
                i <= np,
                np == self@.postings.len(),
                out@ == head2 + spec_render_postings(self@.postings.subrange(0, i as int)),
            decreases np - i,
        {
            out.push(' ');
            out.push(' ');
            out.push(' ');
            out.push(' ');
            proof {
                assert(self.postings@[i as int]@ == self@.postings[i as int]);
                assert(number_wf(self@.postings[i as int].amount.number));
            }
            let pl = str_to_chars(self.postings[i].render().as_str());
            push_all(&mut out, &pl);
            out.push('\n');
            i = i + 1;
            proof {
                let pre = self@.postings.subrange(0, i - 1);
                let cur = self@.postings.subrange(0, i as int);
                assert(cur.drop_last() =~= pre);
                assert(cur.last() == self@.postings[i - 1]);
                assert(out@ =~= head2 + (spec_render_postings(pre) + seq![' ', ' ', ' ', ' ']
                    + spec_render_posting(self@.postings[i - 1]) + seq!['\n']));
            }
        }
        proof {
            assert(self@.postings.subrange(0, np as int) =~= self@.postings);
            assert(out@ =~= spec_render_transaction(self@));
        }
        string_from_chars(&out)
    }
}

/// The year and month digits of a rendered record, whose text starts with
/// its `YYYY-MM-DD` date: they pick the ledger file the record belongs in.
pub fn record_year_month(text: &str) -> (r: (String, String))
    requires
        text@.len() >= 7,
    ensures
        r.0@ == text@.subrange(0, 4),
        r.1@ == text@.subrange(5, 7),
{
    let year = String::from_str(text.substring_char(0, 4));
    let month = String::from_str(text.substring_char(5, 7));
    (year, month)
}

/// The user-facing description of a build failure.
pub open spec fn spec_build_message(e: &BuildError) -> Seq<char> {
    match e {
        BuildError::NotEnoughArguments(Field::Amount) => "Not enough arguments: amount"@,
        BuildError::NotEnoughArguments(Field::Account) => "Not enough arguments: account"@,
        BuildError::NotEnoughArguments(Field::ExpenseAccount) => "Not enough arguments: expense account"@,
        BuildError::InvalidAmount(t) => "Invalid amount "@ + t@,
        BuildError::InvalidSourceAccount(fe) => "Invalid spend account: "@ + crate::account::spec_filter_message(fe),
        BuildError::InvalidExpenseAccount(fe) => "Invalid expense account: "@ + crate::account::spec_filter_message(fe),
    }
}

impl BuildError {
    /// The user-facing description of this error.
    pub fn message(&self) -> (r: String)
        ensures
            r@ == spec_build_message(self),
    {
        match self {
            BuildError::NotEnoughArguments(Field::Amount) => String::from_str(
                "Not enough arguments: amount",
            ),
            BuildError::NotEnoughArguments(Field::Account) => String::from_str(
                "Not enough arguments: account",
            ),
            BuildError::NotEnoughArguments(Field::ExpenseAccount) => String::from_str(
                "Not enough arguments: expense account",
            ),
            BuildError::InvalidAmount(t) => {
                let mut s = String::from_str("Invalid amount ");
                s.append(t.as_str());
                s
            },
            BuildError::InvalidSourceAccount(fe) => {
                let mut s = String::from_str("Invalid spend account: ");
                s.append(fe.message().as_str());
                s
            },
            BuildError::InvalidExpenseAccount(fe) => {
                let mut s = String::from_str("Invalid expense account: ");
                s.append(fe.message().as_str());
                s
            },
        }
    }
}

/// A built transaction balances: it has exactly two postings, the second
/// amount is the negation of the first, and both carry the same currency.
pub proof fn lemma_build_postings_balance(
    cmds: Seq<Seq<char>>,
    accounts: Seq<Seq<char>>,
    default_currency: Seq<char>,
    today: Date,
)
    ensures
        spec_build(cmds, accounts, default_currency, today) matches Ok(t) ==> t.postings.len() == 2
            && t.postings[1].amount == spec_neg(t.postings[0].amount)
            && t.postings[1].amount.currency == t.postings[0].amount.currency,
{
}

} // verus!
