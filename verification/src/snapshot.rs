//! The snapshot file: how the recorded responses of a session are written and
//! read.
//!
//! A snapshot is a JSON object that holds, for each fingerprint, the array of
//! its records; a record is an object with the members `status`, `headers`
//! and `body`, of which `headers` is an object of strings and the others are
//! strings. A record is written with its members in this order and read with
//! its members in any order:
//!
//! ```text
//! { "GET:/a": [ { "status": "200 OK", "headers": { "x": "y" }, "body": "..." } ] }
//! ```

use vstd::prelude::*;
use vstd::string::*;
use crate::json::{
    lemma_lex_render, lex, render, tokenize, writable, write_tokens, Mark, Token, TokenView,
};
use crate::records::{Logs, Record, RecordFile, RecordView};
use crate::strmap::{text_map, StrMap};
use crate::text::str_eq;

verus! {

/// The headers of a record: pairs of name and value.
pub type Pairs = Seq<(Seq<char>, Seq<char>)>;

/// The content of a snapshot: pairs of a fingerprint and its records, in the
/// order of the file.
pub type Entries = Seq<(Seq<char>, Seq<RecordView>)>;

/// The token of a punctuation mark.
pub open spec fn punct(mark: Mark) -> TokenView {
    TokenView::Punct(mark)
}

/// The token of a string.
pub open spec fn word(text: Seq<char>) -> TokenView {
    TokenView::Text(text)
}

/// The string that the token at position `i` stands for, if there is a
/// string at that position.
pub open spec fn text_at(tokens: Seq<TokenView>, i: int) -> Option<Seq<char>> {
    if 0 <= i < tokens.len() {
        match tokens[i] {
            TokenView::Text(text) => Some(text),
            TokenView::Punct(_) => None,
        }
    } else {
        None
    }
}

/// Whether the token at position `i` is the punctuation mark `mark`.
pub open spec fn mark_at(tokens: Seq<TokenView>, i: int, mark: Mark) -> bool {
    0 <= i < tokens.len() && tokens[i] == TokenView::Punct(mark)
}

/// The tokens of the members of a headers object after its first, and of the
/// brace that closes it.
pub open spec fn pairs_tail(pairs: Pairs) -> Seq<TokenView>
    decreases pairs.len(),
{
    if pairs.len() == 0 {
        seq![punct(Mark::Close)]
    } else {
        seq![punct(Mark::Comma), word(pairs[0].0), punct(Mark::Colon), word(pairs[0].1)]
            + pairs_tail(pairs.drop_first())
    }
}

/// The tokens of a headers object.
#[verifier::opaque]
pub open spec fn headers_tokens(pairs: Pairs) -> Seq<TokenView> {
    if pairs.len() == 0 {
        seq![punct(Mark::Open), punct(Mark::Close)]
    } else {
        seq![punct(Mark::Open), word(pairs[0].0), punct(Mark::Colon), word(pairs[0].1)]
            + pairs_tail(pairs.drop_first())
    }
}

/// The tokens of a record, up to its headers.
pub open spec fn record_head(record: RecordView) -> Seq<TokenView> {
    seq![
        punct(Mark::Open),
        word("status"@),
        punct(Mark::Colon),
        word(record.status),
        punct(Mark::Comma),
        word("headers"@),
        punct(Mark::Colon),
    ]
}

/// The tokens of a record, after its headers.
pub open spec fn record_foot(record: RecordView) -> Seq<TokenView> {
    seq![
        punct(Mark::Comma),
        word("body"@),
        punct(Mark::Colon),
        word(record.body),
        punct(Mark::Close),
    ]
}

/// The tokens of a record.
#[verifier::opaque]
pub open spec fn record_tokens(record: RecordView) -> Seq<TokenView> {
    record_head(record) + headers_tokens(record.headers) + record_foot(record)
}

/// The tokens of the records of an array after its first, and of the bracket
/// that closes it.
pub open spec fn records_tail(records: Seq<RecordView>) -> Seq<TokenView>
    decreases records.len(),
{
    if records.len() == 0 {
        seq![punct(Mark::CloseList)]
    } else {
        seq![punct(Mark::Comma)] + record_tokens(records[0]) + records_tail(records.drop_first())
    }
}

/// The tokens of an array of records.
#[verifier::opaque]
pub open spec fn log_tokens(records: Seq<RecordView>) -> Seq<TokenView> {
    if records.len() == 0 {
        seq![punct(Mark::OpenList), punct(Mark::CloseList)]
    } else {
        seq![punct(Mark::OpenList)] + record_tokens(records[0]) + records_tail(
            records.drop_first(),
        )
    }
}

/// The tokens of the members of a snapshot after its first, and of the brace
/// that closes it.
pub open spec fn entries_tail(entries: Entries) -> Seq<TokenView>
    decreases entries.len(),
{
    if entries.len() == 0 {
        seq![punct(Mark::Close)]
    } else {
        seq![punct(Mark::Comma), word(entries[0].0), punct(Mark::Colon)] + log_tokens(
            entries[0].1,
        ) + entries_tail(entries.drop_first())
    }
}

/// The tokens of a snapshot.
pub open spec fn snapshot_tokens(entries: Entries) -> Seq<TokenView> {
    if entries.len() == 0 {
        seq![punct(Mark::Open), punct(Mark::Close)]
    } else {
        seq![punct(Mark::Open), word(entries[0].0), punct(Mark::Colon)] + log_tokens(
            entries[0].1,
        ) + entries_tail(entries.drop_first())
    }
}

/// Reads the members of a headers object after its first, and the brace that
/// closes it: the pairs, and how many tokens they took.
pub open spec fn read_pairs_tail(tokens: Seq<TokenView>) -> Option<(Pairs, nat)>
    decreases tokens.len(),
{
    if mark_at(tokens, 0, Mark::Close) {
        Some((Seq::empty(), 1))
    } else if mark_at(tokens, 0, Mark::Comma) && text_at(tokens, 1) is Some && mark_at(
        tokens,
        2,
        Mark::Colon,
    ) && text_at(tokens, 3) is Some {
        match read_pairs_tail(tokens.skip(4)) {
            Some((rest, used)) => Some(
                (seq![(text_at(tokens, 1)->0, text_at(tokens, 3)->0)] + rest, 4 + used),
            ),
            None => None,
        }
    } else {
        None
    }
}

/// Reads a headers object.
#[verifier::opaque]
pub open spec fn read_headers(tokens: Seq<TokenView>) -> Option<(Pairs, nat)> {
    if !mark_at(tokens, 0, Mark::Open) {
        None
    } else if mark_at(tokens, 1, Mark::Close) {
        Some((Seq::empty(), 2))
    } else if text_at(tokens, 1) is Some && mark_at(tokens, 2, Mark::Colon) && text_at(tokens, 3)
        is Some {
        match read_pairs_tail(tokens.skip(4)) {
            Some((rest, used)) => Some(
                (seq![(text_at(tokens, 1)->0, text_at(tokens, 3)->0)] + rest, 4 + used),
            ),
            None => None,
        }
    } else {
        None
    }
}

/// The members of a record, as far as they were read.
pub ghost struct MembersView {
    pub status: Option<Seq<char>>,
    pub headers: Option<Pairs>,
    pub body: Option<Seq<char>>,
}

/// No member was read yet.
pub open spec fn no_members() -> MembersView {
    MembersView { status: None, headers: None, body: None }
}

/// Reads one member of a record, which is `status`, `headers` or `body` and
/// was not read before: the members that are then read, and how many
/// tokens the member took.
#[verifier::opaque]
pub open spec fn read_member(tokens: Seq<TokenView>, have: MembersView) -> Option<
    (MembersView, nat),
> {
    if !mark_at(tokens, 1, Mark::Colon) {
        None
    } else if text_at(tokens, 0) == Some("status"@) {
        if have.status is None && text_at(tokens, 2) is Some {
            Some((MembersView { status: text_at(tokens, 2), ..have }, 3))
        } else {
            None
        }
    } else if text_at(tokens, 0) == Some("body"@) {
        if have.body is None && text_at(tokens, 2) is Some {
            Some((MembersView { body: text_at(tokens, 2), ..have }, 3))
        } else {
            None
        }
    } else if text_at(tokens, 0) == Some("headers"@) {
        if have.headers is None {
            match read_headers(tokens.skip(2)) {
                Some((headers, used)) => Some(
                    (MembersView { headers: Some(headers), ..have }, 2 + used),
                ),
                None => None,
            }
        } else {
            None
        }
    } else {
        None
    }
}

/// Reads the members of a record after its first, and the brace that closes
/// it.
pub open spec fn read_members_tail(tokens: Seq<TokenView>, have: MembersView) -> Option<
    (MembersView, nat),
>
    decreases tokens.len(),
{
    if mark_at(tokens, 0, Mark::Close) {
        Some((have, 1))
    } else if mark_at(tokens, 0, Mark::Comma) {
        match read_member(tokens.skip(1), have) {
            Some((next, used)) => if 1 + used <= tokens.len() {
                match read_members_tail(tokens.skip(1 + used as int), next) {
                    Some((all, more)) => Some((all, 1 + used + more)),
                    None => None,
                }
            } else {
                None
            },
            None => None,
        }
    } else {
        None
    }
}

/// Reads a record: an object with the members `status`, `headers` and `body`,
/// each of them once, in any order, and with no other member.
#[verifier::opaque]
pub open spec fn read_record(tokens: Seq<TokenView>) -> Option<(RecordView, nat)> {
    if !mark_at(tokens, 0, Mark::Open) {
        None
    } else {
        match read_member(tokens.skip(1), no_members()) {
            Some((first, used)) => if 1 + used <= tokens.len() {
                match read_members_tail(tokens.skip(1 + used as int), first) {
                    Some((all, more)) => if all.status is Some && all.headers is Some && all.body
                        is Some {
                        Some(
                            (
                                RecordView {
                                    status: all.status->0,
                                    headers: all.headers->0,
                                    body: all.body->0,
                                },
                                1 + used + more,
                            ),
                        )
                    } else {
                        None
                    },
                    None => None,
                }
            } else {
                None
            },
            None => None,
        }
    }
}

/// Reads the records of an array after its first, and the bracket that closes
/// it.
pub open spec fn read_records_tail(tokens: Seq<TokenView>) -> Option<(Seq<RecordView>, nat)>
    decreases tokens.len(),
{
    if mark_at(tokens, 0, Mark::CloseList) {
        Some((Seq::empty(), 1))
    } else if mark_at(tokens, 0, Mark::Comma) {
        match read_record(tokens.skip(1)) {
            Some((record, used)) => if 1 + used <= tokens.len() {
                match read_records_tail(tokens.skip(1 + used as int)) {
                    Some((rest, more)) => Some((seq![record] + rest, 1 + used + more)),
                    None => None,
                }
            } else {
                None
            },
            None => None,
        }
    } else {
        None
    }
}

/// Reads an array of records.
#[verifier::opaque]
pub open spec fn read_log(tokens: Seq<TokenView>) -> Option<(Seq<RecordView>, nat)> {
    if !mark_at(tokens, 0, Mark::OpenList) {
        None
    } else if mark_at(tokens, 1, Mark::CloseList) {
        Some((Seq::empty(), 2))
    } else {
        match read_record(tokens.skip(1)) {
            Some((record, used)) => if 1 + used <= tokens.len() {
                match read_records_tail(tokens.skip(1 + used as int)) {
                    Some((rest, more)) => Some((seq![record] + rest, 1 + used + more)),
                    None => None,
                }
            } else {
                None
            },
            None => None,
        }
    }
}

/// Reads the members of a snapshot after its first, and the brace that closes
/// it.
pub open spec fn read_entries_tail(tokens: Seq<TokenView>) -> Option<(Entries, nat)>
    decreases tokens.len(),
{
    if mark_at(tokens, 0, Mark::Close) {
        Some((Seq::empty(), 1))
    } else if mark_at(tokens, 0, Mark::Comma) && text_at(tokens, 1) is Some && mark_at(
        tokens,
        2,
        Mark::Colon,
    ) {
        match read_log(tokens.skip(3)) {
            Some((log, used)) => if 3 + used <= tokens.len() {
                match read_entries_tail(tokens.skip(3 + used as int)) {
                    Some((rest, more)) => Some(
                        (seq![(text_at(tokens, 1)->0, log)] + rest, 3 + used + more),
                    ),
                    None => None,
                }
            } else {
                None
            },
            None => None,
        }
    } else {
        None
    }
}

/// Reads a snapshot: the tokens hold one object of the form of a snapshot and
/// nothing after it.
pub open spec fn read_snapshot(tokens: Seq<TokenView>) -> Option<Entries> {
    if !mark_at(tokens, 0, Mark::Open) {
        None
    } else if mark_at(tokens, 1, Mark::Close) {
        if tokens.len() == 2 {
            Some(Seq::empty())
        } else {
            None
        }
    } else if text_at(tokens, 1) is Some && mark_at(tokens, 2, Mark::Colon) {
        match read_log(tokens.skip(3)) {
            Some((log, used)) => if 3 + used <= tokens.len() {
                match read_entries_tail(tokens.skip(3 + used as int)) {
                    Some((rest, more)) => if 3 + used + more == tokens.len() {
                        Some(seq![(text_at(tokens, 1)->0, log)] + rest)
                    } else {
                        None
                    },
                    None => None,
                }
            } else {
                None
            },
            None => None,
        }
    } else {
        None
    }
}

/// The members of a headers object are read as they were written, whatever
/// follows them.
pub proof fn lemma_read_pairs_tail(pairs: Pairs, more: Seq<TokenView>)
    ensures
        read_pairs_tail(pairs_tail(pairs) + more) == Some((pairs, pairs_tail(pairs).len())),
    decreases pairs.len(),
{
    let tokens = pairs_tail(pairs) + more;
    if pairs.len() == 0 {
        assert(tokens[0] == punct(Mark::Close));
        assert(pairs =~= Seq::empty());
    } else {
        let rest = pairs.drop_first();
        let head = seq![
            punct(Mark::Comma),
            word(pairs[0].0),
            punct(Mark::Colon),
            word(pairs[0].1),
        ];
        assert(pairs_tail(pairs) == head + pairs_tail(rest));
        assert(tokens[0] == head[0] && tokens[1] == head[1] && tokens[2] == head[2] && tokens[3]
            == head[3]);
        assert(tokens.skip(4) =~= pairs_tail(rest) + more);
        lemma_read_pairs_tail(rest, more);
        assert(seq![(pairs[0].0, pairs[0].1)] + rest =~= pairs);
    }
}

/// A headers object is read as it was written, whatever follows it.
pub proof fn lemma_read_headers(pairs: Pairs, more: Seq<TokenView>)
    ensures
        read_headers(headers_tokens(pairs) + more) == Some(
            (pairs, headers_tokens(pairs).len()),
        ),
{
    reveal(read_headers);
    reveal(headers_tokens);
    let tokens = headers_tokens(pairs) + more;
    if pairs.len() == 0 {
        assert(tokens[0] == punct(Mark::Open) && tokens[1] == punct(Mark::Close));
        assert(pairs =~= Seq::empty());
    } else {
        let rest = pairs.drop_first();
        let head = seq![punct(Mark::Open), word(pairs[0].0), punct(Mark::Colon), word(pairs[0].1)];
        assert(headers_tokens(pairs) == head + pairs_tail(rest));
        assert(tokens[0] == head[0] && tokens[1] == head[1] && tokens[2] == head[2] && tokens[3]
            == head[3]);
        assert(tokens.skip(4) =~= pairs_tail(rest) + more);
        lemma_read_pairs_tail(rest, more);
        assert(seq![(pairs[0].0, pairs[0].1)] + rest =~= pairs);
    }
}

/// The names of the three members of a record differ.
pub proof fn lemma_member_names()
    ensures
        "status"@ != "headers"@,
        "status"@ != "body"@,
        "headers"@ != "body"@,
{
    reveal_strlit("status");
    reveal_strlit("headers");
    reveal_strlit("body");
    assert("status"@.len() == 6 && "headers"@.len() == 7 && "body"@.len() == 4);
}

/// A record is read as it was written, whatever follows it.
pub proof fn lemma_read_record(record: RecordView, more: Seq<TokenView>)
    ensures
        read_record(record_tokens(record) + more) == Some(
            (record, record_tokens(record).len()),
        ),
{
    reveal(read_record);
    reveal(read_member);
    reveal(record_tokens);
    lemma_member_names();
    let tokens = record_tokens(record) + more;
    let head = record_head(record);
    let middle = headers_tokens(record.headers);
    let foot = record_foot(record);
    let n: int = middle.len() as int;
    assert(tokens =~= head + (middle + (foot + more)));
    assert(tokens[0] == head[0] && tokens[1] == head[1] && tokens[2] == head[2] && tokens[3]
        == head[3] && tokens[4] == head[4] && tokens[5] == head[5] && tokens[6] == head[6]);
    assert(tokens[7 + n] == foot[0] && tokens[8 + n] == foot[1] && tokens[9 + n] == foot[2]
        && tokens[10 + n] == foot[3] && tokens[11 + n] == foot[4]);

    // The first member is the status.
    let after_open = tokens.skip(1);
    assert(after_open[0] == tokens[1] && after_open[1] == tokens[2] && after_open[2] == tokens[3]);
    let first = MembersView { status: Some(record.status), ..no_members() };
    assert(read_member(after_open, no_members()) == Some((first, 3nat)));

    // The second member is the headers.
    let at_comma = tokens.skip(4);
    assert(at_comma[0] == tokens[4]);
    let at_headers = at_comma.skip(1);
    assert(at_headers[0] == tokens[5] && at_headers[1] == tokens[6]);
    assert(at_headers.skip(2) =~= middle + (foot + more));
    lemma_read_headers(record.headers, foot + more);
    let second = MembersView { headers: Some(record.headers), ..first };
    assert(read_member(at_headers, first) == Some((second, (2 + n) as nat)));

    // The third member is the body, and the brace follows it.
    let at_foot = at_comma.skip(1 + (2 + n));
    assert(at_foot =~= tokens.skip(7 + n));
    assert(at_foot[0] == tokens[7 + n]);
    let at_body = at_foot.skip(1);
    assert(at_body[0] == tokens[8 + n] && at_body[1] == tokens[9 + n] && at_body[2] == tokens[10
        + n]);
    let third = MembersView { body: Some(record.body), ..second };
    assert(read_member(at_body, second) == Some((third, 3nat)));
    let at_close = at_foot.skip(4);
    assert(at_close[0] == tokens[11 + n]);
    assert(read_members_tail(at_close, third) == Some((third, 1nat)));
    assert(read_members_tail(at_foot, second) == Some((third, 5nat)));
    assert(read_members_tail(at_comma, first) == Some((third, (8 + n) as nat)));
}

/// A record begins with an opening brace.
pub proof fn lemma_record_tokens_begin(record: RecordView)
    ensures
        record_tokens(record).len() > 0,
        record_tokens(record)[0] == punct(Mark::Open),
{
    reveal(record_tokens);
    let head = record_head(record);
    let rest = headers_tokens(record.headers) + record_foot(record);
    assert(head.len() == 7);
    assert(record_tokens(record) =~= head + rest);
    assert((head + rest)[0] == head[0]);
}

/// The records of an array are read as they were written, whatever follows
/// them.
pub proof fn lemma_read_records_tail(records: Seq<RecordView>, more: Seq<TokenView>)
    ensures
        read_records_tail(records_tail(records) + more) == Some(
            (records, records_tail(records).len()),
        ),
    decreases records.len(),
{
    let tokens = records_tail(records) + more;
    if records.len() == 0 {
        assert(tokens[0] == punct(Mark::CloseList));
        assert(records =~= Seq::empty());
    } else {
        let rest = records.drop_first();
        let first = record_tokens(records[0]);
        assert(tokens =~= seq![punct(Mark::Comma)] + (first + (records_tail(rest) + more)));
        assert(tokens[0] == punct(Mark::Comma));
        assert(tokens.skip(1) =~= first + (records_tail(rest) + more));
        lemma_read_record(records[0], records_tail(rest) + more);
        assert(tokens.skip(1 + first.len() as int) =~= records_tail(rest) + more);
        lemma_read_records_tail(rest, more);
        assert(seq![records[0]] + rest =~= records);
    }
}

/// An array of records is read as it was written, whatever follows it.
pub proof fn lemma_read_log(records: Seq<RecordView>, more: Seq<TokenView>)
    ensures
        read_log(log_tokens(records) + more) == Some((records, log_tokens(records).len())),
{
    reveal(read_log);
    reveal(log_tokens);
    let tokens = log_tokens(records) + more;
    if records.len() == 0 {
        assert(tokens[0] == punct(Mark::OpenList) && tokens[1] == punct(Mark::CloseList));
        assert(records =~= Seq::empty());
    } else {
        let rest = records.drop_first();
        let first = record_tokens(records[0]);
        assert(tokens =~= seq![punct(Mark::OpenList)] + (first + (records_tail(rest) + more)));
        assert(tokens[0] == punct(Mark::OpenList));
        lemma_record_tokens_begin(records[0]);
        assert(tokens[1] == first[0]);
        assert(tokens.skip(1) =~= first + (records_tail(rest) + more));
        lemma_read_record(records[0], records_tail(rest) + more);
        assert(tokens.skip(1 + first.len() as int) =~= records_tail(rest) + more);
        lemma_read_records_tail(rest, more);
        assert(seq![records[0]] + rest =~= records);
    }
}

/// The members of a snapshot are read as they were written, whatever follows
/// them.
pub proof fn lemma_read_entries_tail(entries: Entries, more: Seq<TokenView>)
    ensures
        read_entries_tail(entries_tail(entries) + more) == Some(
            (entries, entries_tail(entries).len()),
        ),
    decreases entries.len(),
{
    let tokens = entries_tail(entries) + more;
    if entries.len() == 0 {
        assert(tokens[0] == punct(Mark::Close));
        assert(entries =~= Seq::empty());
    } else {
        let rest = entries.drop_first();
        let head = seq![punct(Mark::Comma), word(entries[0].0), punct(Mark::Colon)];
        let log = log_tokens(entries[0].1);
        assert(tokens =~= head + (log + (entries_tail(rest) + more)));
        assert(tokens[0] == head[0] && tokens[1] == head[1] && tokens[2] == head[2]);
        assert(tokens.skip(3) =~= log + (entries_tail(rest) + more));
        lemma_read_log(entries[0].1, entries_tail(rest) + more);
        assert(tokens.skip(3 + log.len() as int) =~= entries_tail(rest) + more);
        lemma_read_entries_tail(rest, more);
        assert(seq![(entries[0].0, entries[0].1)] + rest =~= entries);
    }
}

/// A snapshot is read as it was written.
pub proof fn lemma_read_snapshot(entries: Entries)
    ensures
        read_snapshot(snapshot_tokens(entries)) == Some(entries),
{
    let tokens = snapshot_tokens(entries);
    if entries.len() == 0 {
        assert(tokens[0] == punct(Mark::Open) && tokens[1] == punct(Mark::Close));
        assert(entries =~= Seq::empty());
    } else {
        let rest = entries.drop_first();
        let head = seq![punct(Mark::Open), word(entries[0].0), punct(Mark::Colon)];
        let log = log_tokens(entries[0].1);
        let none = Seq::<TokenView>::empty();
        assert(tokens =~= head + (log + (entries_tail(rest) + none)));
        assert(tokens[0] == head[0] && tokens[1] == head[1] && tokens[2] == head[2]);
        assert(tokens.skip(3) =~= log + (entries_tail(rest) + none));
        lemma_read_log(entries[0].1, entries_tail(rest) + none);
        assert(tokens.skip(3 + log.len() as int) =~= entries_tail(rest) + none);
        lemma_read_entries_tail(rest, none);
        assert(seq![(entries[0].0, entries[0].1)] + rest =~= entries);
    }
}

/// Adds the token of a punctuation mark.
pub fn push_mark(out: &mut Vec<Token>, mark: Mark)
    ensures
        final(out).deep_view() == old(out).deep_view().push(punct(mark)),
{
    out.push(Token::Punct(mark));
    assert(out.deep_view() =~= old(out).deep_view().push(punct(mark)));
}

/// Adds the token of a string.
pub fn push_text(out: &mut Vec<Token>, text: &str)
    ensures
        final(out).deep_view() == old(out).deep_view().push(word(text@)),
{
    out.push(Token::Text(String::from_str(text)));
    assert(out.deep_view() =~= old(out).deep_view().push(word(text@)));
}

/// Adds the tokens of a member whose value is a string, with the mark
/// `before` in front of it.
pub fn push_member(out: &mut Vec<Token>, before: Mark, name: &str, value: &str)
    ensures
        final(out).deep_view() == old(out).deep_view() + seq![
            punct(before),
            word(name@),
            punct(Mark::Colon),
            word(value@),
        ],
{
    push_mark(out, before);
    push_text(out, name);
    push_mark(out, Mark::Colon);
    push_text(out, value);
    assert(out.deep_view() =~= old(out).deep_view() + seq![
        punct(before),
        word(name@),
        punct(Mark::Colon),
        word(value@),
    ]);
}

/// Adds the tokens of a headers object.
pub fn push_headers(out: &mut Vec<Token>, headers: &Vec<(String, String)>)
    ensures
        final(out).deep_view() == old(out).deep_view() + headers_tokens(headers.deep_view()),
{
    reveal(headers_tokens);
    let ghost all = headers.deep_view();
    let ghost start = out.deep_view();
    if headers.len() == 0 {
        push_mark(out, Mark::Open);
        push_mark(out, Mark::Close);
        assert(out.deep_view() =~= start + headers_tokens(all));
        return ;
    }
    assert(all[0] == (headers@[0].0@, headers@[0].1@));
    push_member(out, Mark::Open, headers[0].0.as_str(), headers[0].1.as_str());
    let mut i: usize = 1;
    assert(all.skip(1) == all.drop_first());
    while i < headers.len()
        invariant
            1 <= i <= headers.len(),
            all == headers.deep_view(),
            out.deep_view() + pairs_tail(all.skip(i as int)) == start + headers_tokens(all),
        decreases headers.len() - i,
    {
        let ghost before = out.deep_view();
        proof {
            assert(all.skip(i as int)[0] == (headers@[i as int].0@, headers@[i as int].1@));
            assert(all.skip(i as int).drop_first() == all.skip(i + 1));
        }
        push_member(out, Mark::Comma, headers[i].0.as_str(), headers[i].1.as_str());
        proof {
            let step = seq![
                punct(Mark::Comma),
                word(headers@[i as int].0@),
                punct(Mark::Colon),
                word(headers@[i as int].1@),
            ];
            assert(before + (step + pairs_tail(all.skip(i + 1))) =~= out.deep_view() + pairs_tail(
                all.skip(i + 1),
            ));
        }
        i += 1;
    }
    let ghost before = out.deep_view();
    push_mark(out, Mark::Close);
    assert(out.deep_view() =~= before + pairs_tail(all.skip(i as int)));
}

/// Adds the tokens of a record.
pub fn push_record(out: &mut Vec<Token>, record: &Record)
    ensures
        final(out).deep_view() == old(out).deep_view() + record_tokens(record@),
{
    reveal(record_tokens);
    let ghost start = out.deep_view();
    push_member(out, Mark::Open, "status", record.status.as_str());
    push_mark(out, Mark::Comma);
    push_text(out, "headers");
    push_mark(out, Mark::Colon);
    assert(out.deep_view() =~= start + record_head(record@));
    push_headers(out, &record.headers);
    let ghost middle = out.deep_view();
    push_member(out, Mark::Comma, "body", record.body.as_str());
    push_mark(out, Mark::Close);
    assert(out.deep_view() =~= middle + record_foot(record@));
    assert(out.deep_view() =~= start + record_tokens(record@));
}

/// Adds the tokens of an array of records.
pub fn push_log(out: &mut Vec<Token>, records: &Vec<Record>)
    ensures
        final(out).deep_view() == old(out).deep_view() + log_tokens(records.deep_view()),
{
    reveal(log_tokens);
    let ghost all = records.deep_view();
    let ghost start = out.deep_view();
    push_mark(out, Mark::OpenList);
    if records.len() == 0 {
        push_mark(out, Mark::CloseList);
        assert(out.deep_view() =~= start + log_tokens(all));
        return ;
    }
    assert(all[0] == records@[0]@);
    push_record(out, &records[0]);
    let mut i: usize = 1;
    assert(all.skip(1) == all.drop_first());
    assert(out.deep_view() + records_tail(all.skip(1)) =~= start + log_tokens(all));
    while i < records.len()
        invariant
            1 <= i <= records.len(),
            all == records.deep_view(),
            out.deep_view() + records_tail(all.skip(i as int)) == start + log_tokens(all),
        decreases records.len() - i,
    {
        let ghost before = out.deep_view();
        proof {
            assert(all.skip(i as int)[0] == records@[i as int]@);
            assert(all.skip(i as int).drop_first() == all.skip(i + 1));
        }
        push_mark(out, Mark::Comma);
        push_record(out, &records[i]);
        proof {
            assert(before + (seq![punct(Mark::Comma)] + record_tokens(records@[i as int]@)
                + records_tail(all.skip(i + 1))) =~= out.deep_view() + records_tail(
                all.skip(i + 1),
            ));
        }
        i += 1;
    }
    let ghost before = out.deep_view();
    push_mark(out, Mark::CloseList);
    assert(out.deep_view() =~= before + records_tail(all.skip(i as int)));
}

/// The tokens of a snapshot that holds the given records.
pub fn tokens_of_records(records: &StrMap<Vec<Record>>) -> (tokens: Vec<Token>)
    ensures
        tokens.deep_view() == snapshot_tokens(records.entries.deep_view()),
{
    let ghost all = records.entries.deep_view();
    let mut out: Vec<Token> = Vec::new();
    assert(out.deep_view() =~= Seq::empty());
    push_mark(&mut out, Mark::Open);
    if records.entries.len() == 0 {
        push_mark(&mut out, Mark::Close);
        assert(out.deep_view() =~= snapshot_tokens(all));
        return out;
    }
    assert(all[0] == (records.entries@[0].0@, records.entries@[0].1.deep_view()));
    push_text(&mut out, records.entries[0].0.as_str());
    push_mark(&mut out, Mark::Colon);
    push_log(&mut out, &records.entries[0].1);
    let mut i: usize = 1;
    assert(all.skip(1) == all.drop_first());
    assert(out.deep_view() + entries_tail(all.skip(1)) =~= snapshot_tokens(all));
    while i < records.entries.len()
        invariant
            1 <= i <= records.entries.len(),
            all == records.entries.deep_view(),
            out.deep_view() + entries_tail(all.skip(i as int)) == snapshot_tokens(all),
        decreases records.entries.len() - i,
    {
        let ghost before = out.deep_view();
        proof {
            assert(all.skip(i as int)[0] == (
                records.entries@[i as int].0@,
                records.entries@[i as int].1.deep_view(),
            ));
            assert(all.skip(i as int).drop_first() == all.skip(i + 1));
        }
        push_mark(&mut out, Mark::Comma);
        push_text(&mut out, records.entries[i].0.as_str());
        push_mark(&mut out, Mark::Colon);
        push_log(&mut out, &records.entries[i].1);
        proof {
            assert(before + (seq![
                punct(Mark::Comma),
                word(records.entries@[i as int].0@),
                punct(Mark::Colon),
            ] + log_tokens(records.entries@[i as int].1.deep_view()) + entries_tail(
                all.skip(i + 1),
            )) =~= out.deep_view() + entries_tail(all.skip(i + 1)));
        }
        i += 1;
    }
    let ghost before = out.deep_view();
    push_mark(&mut out, Mark::Close);
    assert(out.deep_view() =~= before + entries_tail(all.skip(i as int)));
    out
}

/// The string at `offset` tokens behind `at`, if a string stands there.
fn text_of(tokens: &Vec<Token>, at: usize, offset: usize) -> (text: Option<String>)
    requires
        at <= tokens.len(),
    ensures
        text.deep_view() == text_at(tokens.deep_view().skip(at as int), offset as int),
{
    if offset >= tokens.len() - at {
        return None;
    }
    assert(tokens.deep_view().skip(at as int)[offset as int] == tokens@[at + offset]@);
    match &tokens[at + offset] {
        Token::Text(text) => Some(text.clone()),
        Token::Punct(_) => None,
    }
}

/// Whether the string `expected` stands at `offset` tokens behind `at`.
fn has_text(tokens: &Vec<Token>, at: usize, offset: usize, expected: &str) -> (found: bool)
    requires
        at <= tokens.len(),
    ensures
        found == (text_at(tokens.deep_view().skip(at as int), offset as int) == Some(expected@)),
{
    if offset >= tokens.len() - at {
        return false;
    }
    assert(tokens.deep_view().skip(at as int)[offset as int] == tokens@[at + offset]@);
    match &tokens[at + offset] {
        Token::Text(text) => str_eq(text.as_str(), expected),
        Token::Punct(_) => false,
    }
}

/// Whether the punctuation mark `mark` stands at `offset` tokens behind `at`.
fn has_mark(tokens: &Vec<Token>, at: usize, offset: usize, mark: Mark) -> (found: bool)
    requires
        at <= tokens.len(),
    ensures
        found == mark_at(tokens.deep_view().skip(at as int), offset as int, mark),
        found ==> at + offset < tokens.len(),
{
    if offset >= tokens.len() - at {
        return false;
    }
    assert(tokens.deep_view().skip(at as int)[offset as int] == tokens@[at + offset]@);
    match &tokens[at + offset] {
        Token::Text(_) => false,
        Token::Punct(found) => *found == mark,
    }
}

/// Reads the members of a headers object after its first, and the brace that
/// closes it, from the token at `at` on.
fn parse_pairs_tail(tokens: &Vec<Token>, at: usize) -> (read: Option<
    (Vec<(String, String)>, usize),
>)
    requires
        at <= tokens.len(),
    ensures
        match read {
            Some((pairs, used)) => read_pairs_tail(tokens.deep_view().skip(at as int)) == Some(
                (pairs.deep_view(), used as nat),
            ) && at + used <= tokens.len(),
            None => read_pairs_tail(tokens.deep_view().skip(at as int)) is None,
        },
{
    let ghost all = tokens.deep_view();
    let mut pairs: Vec<(String, String)> = Vec::new();
    let mut pos: usize = at;
    proof {
        assert(pairs.deep_view() =~= Seq::empty());
        match read_pairs_tail(all.skip(at as int)) {
            Some((rest, used)) => {
                assert(pairs.deep_view() + rest =~= rest);
            },
            None => {},
        }
    }
    loop
        invariant
            at <= pos <= tokens.len(),
            all == tokens.deep_view(),
            read_pairs_tail(all.skip(at as int)) == match read_pairs_tail(all.skip(pos as int)) {
                Some((rest, used)) => Some((pairs.deep_view() + rest, (pos - at + used) as nat)),
                None => None,
            },
        decreases tokens.len() - pos,
    {
        if has_mark(tokens, pos, 0, Mark::Close) {
            assert(pairs.deep_view() + Seq::empty() =~= pairs.deep_view());
            return Some((pairs, pos - at + 1));
        }
        if !has_mark(tokens, pos, 0, Mark::Comma) {
            return None;
        }
        let name = match text_of(tokens, pos, 1) {
            Some(name) => name,
            None => {
                return None;
            },
        };
        if !has_mark(tokens, pos, 2, Mark::Colon) {
            return None;
        }
        let value = match text_of(tokens, pos, 3) {
            Some(value) => value,
            None => {
                return None;
            },
        };
        let ghost before = pairs.deep_view();
        pairs.push((name, value));
        proof {
            assert(all.skip(pos as int).skip(4) =~= all.skip(pos + 4));
            assert(pairs.deep_view() =~= before.push((name@, value@)));
            match read_pairs_tail(all.skip(pos + 4)) {
                Some((rest, used)) => {
                    assert(before + (seq![(name@, value@)] + rest) =~= pairs.deep_view() + rest);
                },
                None => {},
            }
        }
        pos += 4;
    }
}

/// Reads a headers object from the token at `at` on.
fn parse_headers(tokens: &Vec<Token>, at: usize) -> (read: Option<
    (Vec<(String, String)>, usize),
>)
    requires
        at <= tokens.len(),
    ensures
        match read {
            Some((pairs, used)) => read_headers(tokens.deep_view().skip(at as int)) == Some(
                (pairs.deep_view(), used as nat),
            ) && at + used <= tokens.len(),
            None => read_headers(tokens.deep_view().skip(at as int)) is None,
        },
{
    reveal(read_headers);
    let ghost all = tokens.deep_view();
    if !has_mark(tokens, at, 0, Mark::Open) {
        return None;
    }
    if has_mark(tokens, at, 1, Mark::Close) {
        let pairs: Vec<(String, String)> = Vec::new();
        assert(pairs.deep_view() =~= Seq::empty());
        return Some((pairs, 2));
    }
    let name = match text_of(tokens, at, 1) {
        Some(name) => name,
        None => {
            return None;
        },
    };
    if !has_mark(tokens, at, 2, Mark::Colon) {
        return None;
    }
    let value = match text_of(tokens, at, 3) {
        Some(value) => value,
        None => {
            return None;
        },
    };
    assert(all.skip(at as int).skip(4) =~= all.skip(at + 4));
    match parse_pairs_tail(tokens, at + 4) {
        Some((rest, used)) => {
            let mut rest = rest;
            let ghost others = rest.deep_view();
            let mut pairs: Vec<(String, String)> = Vec::new();
            pairs.push((name, value));
            pairs.append(&mut rest);
            assert(pairs.deep_view() =~= seq![(name@, value@)] + others);
            Some((pairs, used + 4))
        },
        None => None,
    }
}

/// The members of a record, as far as they were read.
struct Members {
    status: Option<String>,
    headers: Option<Vec<(String, String)>>,
    body: Option<String>,
}

impl Members {
    /// What was read, as plain values.
    spec fn view(&self) -> MembersView {
        MembersView {
            status: self.status.deep_view(),
            headers: self.headers.deep_view(),
            body: self.body.deep_view(),
        }
    }
}

/// Reads one member of a record from the token at `at` on.
fn parse_member(tokens: &Vec<Token>, at: usize, have: Members) -> (read: Option<(Members, usize)>)
    requires
        at <= tokens.len(),
    ensures
        match read {
            Some((next, used)) => read_member(tokens.deep_view().skip(at as int), have@) == Some(
                (next@, used as nat),
            ) && at + used <= tokens.len(),
            None => read_member(tokens.deep_view().skip(at as int), have@) is None,
        },
{
    reveal(read_member);
    let ghost all = tokens.deep_view();
    if !has_mark(tokens, at, 1, Mark::Colon) {
        return None;
    }
    if has_text(tokens, at, 0, "status") {
        if have.status.is_some() {
            return None;
        }
        match text_of(tokens, at, 2) {
            Some(status) => Some(
                (Members { status: Some(status), headers: have.headers, body: have.body }, 3),
            ),
            None => None,
        }
    } else if has_text(tokens, at, 0, "body") {
        if have.body.is_some() {
            return None;
        }
        match text_of(tokens, at, 2) {
            Some(body) => Some(
                (Members { status: have.status, headers: have.headers, body: Some(body) }, 3),
            ),
            None => None,
        }
    } else if has_text(tokens, at, 0, "headers") {
        if have.headers.is_some() {
            return None;
        }
        assert(all.skip(at as int).skip(2) =~= all.skip(at + 2));
        match parse_headers(tokens, at + 2) {
            Some((headers, used)) => Some(
                (
                    Members { status: have.status, headers: Some(headers), body: have.body },
                    used + 2,
                ),
            ),
            None => None,
        }
    } else {
        None
    }
}

/// Reads a record from the token at `at` on.
fn parse_record(tokens: &Vec<Token>, at: usize) -> (read: Option<(Record, usize)>)
    requires
        at <= tokens.len(),
    ensures
        match read {
            Some((record, used)) => read_record(tokens.deep_view().skip(at as int)) == Some(
                (record@, used as nat),
            ) && at + used <= tokens.len(),
            None => read_record(tokens.deep_view().skip(at as int)) is None,
        },
{
    reveal(read_record);
    let ghost all = tokens.deep_view();
    if !has_mark(tokens, at, 0, Mark::Open) {
        return None;
    }
    assert(all.skip(at as int).skip(1) =~= all.skip(at + 1));
    let none = Members { status: None, headers: None, body: None };
    let (first, used) = match parse_member(tokens, at + 1, none) {
        Some(read) => read,
        None => {
            return None;
        },
    };
    let ghost begun = first@;
    let start: usize = at + 1 + used;
    assert(all.skip(at as int).skip(1 + used as int) =~= all.skip(start as int));
    assert(read_record(all.skip(at as int)) == match read_members_tail(
        all.skip(start as int),
        begun,
    ) {
        Some((found, more)) => if found.status is Some && found.headers is Some && found.body
            is Some {
            Some(
                (
                    RecordView {
                        status: found.status->0,
                        headers: found.headers->0,
                        body: found.body->0,
                    },
                    (start - at + more) as nat,
                ),
            )
        } else {
            None
        },
        None => None,
    });
    let mut have = first;
    let mut pos: usize = start;
    loop
        invariant
            at < start <= pos <= tokens.len(),
            all == tokens.deep_view(),
            read_record(all.skip(at as int)) == match read_members_tail(
                all.skip(start as int),
                begun,
            ) {
                Some((found, more)) => if found.status is Some && found.headers is Some
                    && found.body is Some {
                    Some(
                        (
                            RecordView {
                                status: found.status->0,
                                headers: found.headers->0,
                                body: found.body->0,
                            },
                            (start - at + more) as nat,
                        ),
                    )
                } else {
                    None
                },
                None => None,
            },
            read_members_tail(all.skip(start as int), begun) == match read_members_tail(
                all.skip(pos as int),
                have@,
            ) {
                Some((found, more)) => Some((found, (pos - start + more) as nat)),
                None => None,
            },
        decreases tokens.len() - pos,
    {
        if has_mark(tokens, pos, 0, Mark::Close) {
            return match (have.status, have.headers, have.body) {
                (Some(status), Some(headers), Some(body)) => Some(
                    (Record { status, headers, body }, pos + 1 - at),
                ),
                _ => None,
            };
        }
        if !has_mark(tokens, pos, 0, Mark::Comma) {
            return None;
        }
        assert(all.skip(pos as int).skip(1) =~= all.skip(pos + 1));
        let (next, taken) = match parse_member(tokens, pos + 1, have) {
            Some(read) => read,
            None => {
                return None;
            },
        };
        assert(all.skip(pos as int).skip(1 + taken as int) =~= all.skip(pos + 1 + taken));
        have = next;
        pos = pos + 1 + taken;
    }
}

/// Reads the records of an array after its first, and the bracket that closes
/// it, from the token at `at` on.
fn parse_records_tail(tokens: &Vec<Token>, at: usize) -> (read: Option<(Vec<Record>, usize)>)
    requires
        at <= tokens.len(),
    ensures
        match read {
            Some((records, used)) => read_records_tail(tokens.deep_view().skip(at as int))
                == Some((records.deep_view(), used as nat)) && at + used <= tokens.len(),
            None => read_records_tail(tokens.deep_view().skip(at as int)) is None,
        },
{
    let ghost all = tokens.deep_view();
    let mut records: Vec<Record> = Vec::new();
    let mut pos: usize = at;
    proof {
        assert(records.deep_view() =~= Seq::empty());
        match read_records_tail(all.skip(at as int)) {
            Some((rest, used)) => {
                assert(records.deep_view() + rest =~= rest);
            },
            None => {},
        }
    }
    loop
        invariant
            at <= pos <= tokens.len(),
            all == tokens.deep_view(),
            read_records_tail(all.skip(at as int)) == match read_records_tail(
                all.skip(pos as int),
            ) {
                Some((rest, used)) => Some((records.deep_view() + rest, (pos - at + used) as nat)),
                None => None,
            },
        decreases tokens.len() - pos,
    {
        if has_mark(tokens, pos, 0, Mark::CloseList) {
            assert(records.deep_view() + Seq::empty() =~= records.deep_view());
            return Some((records, pos - at + 1));
        }
        if !has_mark(tokens, pos, 0, Mark::Comma) {
            return None;
        }
        assert(all.skip(pos as int).skip(1) =~= all.skip(pos + 1));
        let (record, used) = match parse_record(tokens, pos + 1) {
            Some(read) => read,
            None => {
                return None;
            },
        };
        let ghost before = records.deep_view();
        records.push(record);
        proof {
            assert(all.skip(pos as int).skip(1 + used as int) =~= all.skip(pos + 1 + used));
            assert(records.deep_view() =~= before.push(record@));
            match read_records_tail(all.skip(pos + 1 + used)) {
                Some((rest, more)) => {
                    assert(before + (seq![record@] + rest) =~= records.deep_view() + rest);
                },
                None => {},
            }
        }
        pos = pos + 1 + used;
    }
}

/// Reads an array of records from the token at `at` on.
fn parse_log(tokens: &Vec<Token>, at: usize) -> (read: Option<(Vec<Record>, usize)>)
    requires
        at <= tokens.len(),
    ensures
        match read {
            Some((records, used)) => read_log(tokens.deep_view().skip(at as int)) == Some(
                (records.deep_view(), used as nat),
            ) && at + used <= tokens.len(),
            None => read_log(tokens.deep_view().skip(at as int)) is None,
        },
{
    reveal(read_log);
    let ghost all = tokens.deep_view();
    if !has_mark(tokens, at, 0, Mark::OpenList) {
        return None;
    }
    if has_mark(tokens, at, 1, Mark::CloseList) {
        let records: Vec<Record> = Vec::new();
        assert(records.deep_view() =~= Seq::empty());
        return Some((records, 2));
    }
    assert(all.skip(at as int).skip(1) =~= all.skip(at + 1));
    let (first, used) = match parse_record(tokens, at + 1) {
        Some(read) => read,
        None => {
            return None;
        },
    };
    assert(all.skip(at as int).skip(1 + used as int) =~= all.skip(at + 1 + used));
    match parse_records_tail(tokens, at + 1 + used) {
        Some((rest, more)) => {
            let mut rest = rest;
            let ghost others = rest.deep_view();
            let mut records: Vec<Record> = Vec::new();
            records.push(first);
            records.append(&mut rest);
            assert(records.deep_view() =~= seq![first@] + others);
            Some((records, 1 + used + more))
        },
        None => None,
    }
}

/// Reads a snapshot from its tokens.
pub fn parse_tokens(tokens: &Vec<Token>) -> (read: Option<StrMap<Vec<Record>>>)
    ensures
        match read {
            Some(records) => read_snapshot(tokens.deep_view()) == Some(
                records.entries.deep_view(),
            ),
            None => read_snapshot(tokens.deep_view()) is None,
        },
{
    let ghost all = tokens.deep_view();
    assert(all.skip(0) =~= all);
    if !has_mark(tokens, 0, 0, Mark::Open) {
        return None;
    }
    let mut entries: Vec<(String, Vec<Record>)> = Vec::new();
    assert(entries.deep_view() =~= Seq::empty());
    if has_mark(tokens, 0, 1, Mark::Close) {
        if tokens.len() == 2 {
            return Some(StrMap { entries });
        } else {
            return None;
        }
    }
    let first = match text_of(tokens, 0, 1) {
        Some(first) => first,
        None => {
            return None;
        },
    };
    if !has_mark(tokens, 0, 2, Mark::Colon) {
        return None;
    }
    let (log, used) = match parse_log(tokens, 3) {
        Some(read) => read,
        None => {
            return None;
        },
    };
    let ghost head = (first@, log.deep_view());
    entries.push((first, log));
    assert(entries.deep_view() =~= seq![head]);
    let start: usize = 3 + used;
    let mut pos: usize = start;
    proof {
        match read_entries_tail(all.skip(start as int)) {
            Some((rest, more)) => {
                assert(entries.deep_view().skip(1) + rest =~= rest);
            },
            None => {},
        }
    }
    assert(read_snapshot(all) == match read_entries_tail(all.skip(start as int)) {
        Some((rest, more)) => if start + more == all.len() {
            Some(seq![head] + rest)
        } else {
            None
        },
        None => None,
    });
    loop
        invariant
            start <= pos <= tokens.len(),
            all == tokens.deep_view(),
            entries.len() >= 1,
            entries.deep_view()[0] == head,
            read_snapshot(all) == match read_entries_tail(all.skip(start as int)) {
                Some((rest, more)) => if start + more == all.len() {
                    Some(seq![head] + rest)
                } else {
                    None
                },
                None => None,
            },
            read_entries_tail(all.skip(start as int)) == match read_entries_tail(
                all.skip(pos as int),
            ) {
                Some((rest, more)) => Some(
                    (entries.deep_view().skip(1) + rest, (pos - start + more) as nat),
                ),
                None => None,
            },
        decreases tokens.len() - pos,
    {
        if has_mark(tokens, pos, 0, Mark::Close) {
            assert(entries.deep_view().skip(1) + Seq::empty() =~= entries.deep_view().skip(1));
            assert(seq![head] + entries.deep_view().skip(1) =~= entries.deep_view());
            if pos + 1 == tokens.len() {
                return Some(StrMap { entries });
            } else {
                return None;
            }
        }
        if !has_mark(tokens, pos, 0, Mark::Comma) {
            return None;
        }
        let name = match text_of(tokens, pos, 1) {
            Some(name) => name,
            None => {
                return None;
            },
        };
        if !has_mark(tokens, pos, 2, Mark::Colon) {
            return None;
        }
        assert(all.skip(pos as int).skip(3) =~= all.skip(pos + 3));
        let (log, used) = match parse_log(tokens, pos + 3) {
            Some(read) => read,
            None => {
                return None;
            },
        };
        let ghost before = entries.deep_view();
        let ghost entry = (name@, log.deep_view());
        entries.push((name, log));
        proof {
            assert(all.skip(pos as int).skip(3 + used as int) =~= all.skip(pos + 3 + used));
            assert(entries.deep_view() =~= before.push(entry));
            assert(entries.deep_view().skip(1) =~= before.skip(1).push(entry));
            match read_entries_tail(all.skip(pos + 3 + used)) {
                Some((rest, more)) => {
                    assert(before.skip(1) + (seq![entry] + rest) =~= entries.deep_view().skip(1)
                        + rest);
                },
                None => {},
            }
        }
        pos = pos + 3 + used;
    }
}

/// The text of the snapshot that holds the given entries: its tokens, one
/// after the other.
pub open spec fn snapshot_text(entries: Entries) -> Seq<char> {
    render(snapshot_tokens(entries))
}

/// The entries of the snapshot that a text holds; `None` where the text is no
/// snapshot.
pub open spec fn snapshot_of(text: Seq<char>) -> Option<Entries> {
    match lex(text) {
        Some(tokens) => read_snapshot(tokens),
        None => None,
    }
}

/// The recorded responses that a snapshot text holds, by fingerprint. Where
/// the text holds a fingerprint more than once, the last occurrence counts.
pub open spec fn snapshot_logs(text: Seq<char>) -> Option<Logs> {
    match snapshot_of(text) {
        Some(entries) => Some(text_map(entries)),
        None => None,
    }
}

/// What was written as a snapshot is read back as it was, as long as each
/// string in it is read back as it was written.
pub proof fn lemma_snapshot_round_trip(entries: Entries)
    requires
        writable(snapshot_tokens(entries)),
    ensures
        snapshot_of(snapshot_text(entries)) == Some(entries),
        snapshot_logs(snapshot_text(entries)) == Some(text_map(entries)),
{
    lemma_lex_render(snapshot_tokens(entries));
    lemma_read_snapshot(entries);
}

/// Where nothing is recorded there is nothing that could not be written: the
/// snapshot is the empty object.
pub proof fn lemma_nothing_recorded(entries: Entries)
    requires
        text_map(entries) =~= Map::<Seq<char>, Seq<RecordView>>::empty(),
    ensures
        entries.len() == 0,
        writable(snapshot_tokens(entries)),
        snapshot_text(entries) == seq!['{', '}'],
{
    if entries.len() > 0 {
        assert(text_map(entries).contains_key(entries.last().0));
    }
    let tokens = snapshot_tokens(entries);
    assert(tokens == seq![punct(Mark::Open), punct(Mark::Close)]);
    assert(tokens.drop_first() =~= seq![punct(Mark::Close)]);
    assert(tokens.drop_first().drop_first() =~= Seq::<TokenView>::empty());
    assert(render(tokens.drop_first().drop_first()) =~= Seq::<char>::empty());
    assert(render(tokens.drop_first()) =~= seq!['}']);
    assert(render(tokens) =~= seq!['{', '}']);
}

/// Writes the recorded responses of a session as the text of a snapshot
/// file. Reading the text gives the same responses back: the same
/// fingerprints in the same order, and under each the same records. There is
/// no text only where one of the strings to write cannot be written so that
/// it is read back.
pub fn serialize(records: &StrMap<Vec<Record>>) -> (text: Option<String>)
    ensures
        match text {
            Some(text) => text@ == snapshot_text(records.entries.deep_view()) && snapshot_of(text@)
                == Some(records.entries.deep_view()) && snapshot_logs(text@) == Some(
                records.deep_view(),
            ),
            None => !writable(snapshot_tokens(records.entries.deep_view())),
        },
        text is Some == writable(snapshot_tokens(records.entries.deep_view())),
{
    let tokens = tokens_of_records(records);
    let text = write_tokens(&tokens);
    proof {
        if text is Some {
            lemma_snapshot_round_trip(records.entries.deep_view());
            records.lemma_deep_view();
        }
    }
    text
}

/// Reads the text of a snapshot file; `None` where the text is no snapshot.
pub fn parse(text: &str) -> (file: Option<RecordFile>)
    ensures
        match file {
            Some(file) => snapshot_of(text@) == Some(file.records.entries.deep_view())
                && snapshot_logs(text@) == Some(file@),
            None => snapshot_of(text@) is None && snapshot_logs(text@) is None,
        },
{
    match tokenize(text) {
        Some(tokens) => match parse_tokens(&tokens) {
            Some(records) => {
                proof {
                    records.lemma_deep_view();
                }
                Some(RecordFile { records })
            },
            None => None,
        },
        None => None,
    }
}

} // verus!
