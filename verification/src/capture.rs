//! Turning what the upstream answered into a record.

use vstd::prelude::*;
use crate::forward::{is_connection, without_connection, UpstreamError};
use crate::records::{Record, RecordView};
use crate::status::{replay_status_of, status_for_record, status_text};
use crate::text::{decode_or_empty, eq_ignore_case, str_eq, text_or_empty};

verus! {

/// How an exchange with the upstream ended.
#[derive(Debug, PartialEq, Eq)]
pub enum Upstream {
    /// The upstream answered; the body was read to its end.
    Answered {
        /// The status code.
        status: u16,
        /// The headers, in the order in which they came, each value as the
        /// bytes that came.
        headers: Vec<(String, Vec<u8>)>,
        /// The bytes of the body.
        body: Vec<u8>,
    },
    /// There is no answer.
    Failed(UpstreamError),
}

/// What an `Upstream` holds, as plain values.
pub ghost enum UpstreamView {
    Answered { status: u16, headers: Seq<(Seq<char>, Seq<u8>)>, body: Seq<u8> },
    Failed(UpstreamError),
}

impl View for Upstream {
    type V = UpstreamView;

    open spec fn view(&self) -> UpstreamView {
        match self {
            Upstream::Answered { status, headers, body } => UpstreamView::Answered {
                status: *status,
                headers: headers.deep_view(),
                body: body@,
            },
            Upstream::Failed(error) => UpstreamView::Failed(*error),
        }
    }
}

/// The position of the last header named `name`, or `-1` if there is none.
pub open spec fn name_index(headers: Seq<(Seq<char>, Seq<char>)>, name: Seq<char>) -> int
    decreases headers.len(),
{
    if headers.len() == 0 {
        -1
    } else if headers.last().0 == name {
        headers.len() - 1
    } else {
        name_index(headers.drop_last(), name)
    }
}

/// The headers with `value` as the value of `name`: in the place of the value
/// that `name` had, or as a new header at the end.
pub open spec fn put_header(
    headers: Seq<(Seq<char>, Seq<char>)>,
    name: Seq<char>,
    value: Seq<char>,
) -> Seq<(Seq<char>, Seq<char>)> {
    if name_index(headers, name) >= 0 {
        headers.update(name_index(headers, name), (name, value))
    } else {
        headers.push((name, value))
    }
}

/// The headers that are stored for the headers of an upstream response:
/// `Connection` is left out; a value that is not UTF-8 is stored as the empty
/// text; and where a name comes more than once, its last value is the one that
/// is stored.
pub open spec fn recorded_headers_of(upstream: Seq<(Seq<char>, Seq<u8>)>) -> Seq<
    (Seq<char>, Seq<char>),
>
    decreases upstream.len(),
{
    if upstream.len() == 0 {
        Seq::empty()
    } else if is_connection(upstream.last().0) {
        recorded_headers_of(upstream.drop_last())
    } else {
        put_header(
            recorded_headers_of(upstream.drop_last()),
            upstream.last().0,
            text_or_empty(upstream.last().1),
        )
    }
}

/// The record of an upstream response: the status as the `http` crate writes
/// it, the headers as `recorded_headers_of` gives them, and the body as text,
/// empty where the bytes are not UTF-8.
pub open spec fn record_of(status: u16, headers: Seq<(Seq<char>, Seq<u8>)>, body: Seq<u8>)
    -> RecordView {
    RecordView {
        status: status_text(status),
        headers: recorded_headers_of(headers),
        body: text_or_empty(body),
    }
}

/// `name_index` is within the headers, and finds a header of that name.
pub proof fn lemma_name_index(headers: Seq<(Seq<char>, Seq<char>)>, name: Seq<char>)
    ensures
        -1 <= name_index(headers, name) < headers.len(),
        name_index(headers, name) >= 0 ==> headers[name_index(headers, name)].0 == name,
        forall|j: int|
            name_index(headers, name) < j < headers.len() ==> (#[trigger] headers[j]).0 != name,
    decreases headers.len(),
{
    if headers.len() > 0 && headers.last().0 != name {
        lemma_name_index(headers.drop_last(), name);
        assert forall|j: int| name_index(headers, name) < j < headers.len() implies (
        #[trigger] headers[j]).0 != name by {
            if j < headers.len() - 1 {
                assert(headers[j] == headers.drop_last()[j]);
            }
        }
    }
}

/// A position that holds `name`, and after which `name` does not come again,
/// is the one that `name_index` finds.
pub proof fn lemma_name_index_is(headers: Seq<(Seq<char>, Seq<char>)>, name: Seq<char>, i: int)
    requires
        -1 <= i < headers.len(),
        i >= 0 ==> headers[i].0 == name,
        forall|j: int| i < j < headers.len() ==> (#[trigger] headers[j]).0 != name,
    ensures
        name_index(headers, name) == i,
    decreases headers.len(),
{
    if headers.len() > 0 && i != headers.len() - 1 {
        assert(headers[headers.len() - 1].0 != name);
        assert forall|j: int| i < j < headers.drop_last().len() implies (
        #[trigger] headers.drop_last()[j]).0 != name by {
            assert(headers.drop_last()[j] == headers[j]);
        }
        lemma_name_index_is(headers.drop_last(), name, i);
    }
}

/// The headers with one pair for each name: the pair stands where the name
/// came first, and holds the value that came last.
pub open spec fn last_values(headers: Seq<(Seq<char>, Seq<char>)>) -> Seq<
    (Seq<char>, Seq<char>),
>
    decreases headers.len(),
{
    if headers.len() == 0 {
        Seq::empty()
    } else {
        put_header(last_values(headers.drop_last()), headers.last().0, headers.last().1)
    }
}

/// Whether no name comes twice among the headers.
pub open spec fn distinct_names(headers: Seq<(Seq<char>, Seq<char>)>) -> bool {
    forall|i: int, j: int|
        0 <= i < j < headers.len() ==> (#[trigger] headers[i]).0 != (#[trigger] headers[j]).0
}

/// Setting a header leaves the names apart, where they were apart.
pub proof fn lemma_put_header_distinct(
    headers: Seq<(Seq<char>, Seq<char>)>,
    name: Seq<char>,
    value: Seq<char>,
)
    requires
        distinct_names(headers),
    ensures
        distinct_names(put_header(headers, name, value)),
{
    lemma_name_index(headers, name);
    let after = put_header(headers, name, value);
    let at = name_index(headers, name);
    assert forall|i: int, j: int| 0 <= i < j < after.len() implies (#[trigger] after[i]).0 != (
    #[trigger] after[j]).0 by {
        if at >= 0 {
            assert(after[i].0 == headers[i].0 && after[j].0 == headers[j].0);
        } else if j < headers.len() {
            assert(after[i] == headers[i] && after[j] == headers[j]);
        } else {
            assert(after[i] == headers[i]);
        }
    }
}

/// In `last_values` no name comes twice, and none is lost or added: its
/// names are the names of the headers, each with its last value.
pub proof fn lemma_last_values(headers: Seq<(Seq<char>, Seq<char>)>)
    ensures
        distinct_names(last_values(headers)),
        forall|name: Seq<char>|
            name_index(headers, name) >= 0 <==> #[trigger] name_index(last_values(headers), name)
                >= 0,
        forall|name: Seq<char>|
            name_index(headers, name) >= 0 ==> last_values(headers)[#[trigger] name_index(
                last_values(headers),
                name,
            )].1 == headers[name_index(headers, name)].1,
    decreases headers.len(),
{
    if headers.len() > 0 {
        let front = headers.drop_last();
        let kept = last_values(front);
        let last = headers.last();
        lemma_last_values(front);
        lemma_put_header_distinct(kept, last.0, last.1);
        lemma_name_index(kept, last.0);
        let after = last_values(headers);
        assert forall|name: Seq<char>|
            (name_index(headers, name) >= 0 <==> #[trigger] name_index(after, name) >= 0) && (
            name_index(headers, name) >= 0 ==> after[name_index(after, name)].1
                == headers[name_index(headers, name)].1) by {
            lemma_name_index(kept, name);
            lemma_name_index(after, name);
            lemma_name_index(front, name);
            let at = name_index(kept, last.0);
            if name == last.0 {
                if at >= 0 {
                    lemma_name_index_is(after, name, at);
                } else {
                    lemma_name_index_is(after, name, after.len() - 1);
                }
            } else {
                let was = name_index(kept, name);
                assert(name_index(front, name) >= 0 <==> was >= 0);
                if was >= 0 {
                    assert(after[was] == kept[was]);
                }
                assert forall|j: int| was < j < after.len() implies (#[trigger] after[j]).0
                    != name by {
                    if j < kept.len() {
                        assert(after[j].0 == kept[j].0);
                    }
                }
                lemma_name_index_is(after, name, was);
            }
        }
    }
}

/// Headers of which no name comes twice are their own last values.
pub proof fn lemma_last_values_same(headers: Seq<(Seq<char>, Seq<char>)>)
    requires
        distinct_names(headers),
    ensures
        last_values(headers) == headers,
    decreases headers.len(),
{
    if headers.len() > 0 {
        let front = headers.drop_last();
        assert(distinct_names(front)) by {
            assert forall|i: int, j: int| 0 <= i < j < front.len() implies (#[trigger] front[i]).0
                != (#[trigger] front[j]).0 by {
                assert(front[i] == headers[i] && front[j] == headers[j]);
            }
        }
        lemma_last_values_same(front);
        assert forall|j: int| -1 < j < front.len() implies (#[trigger] front[j]).0
            != headers.last().0 by {
            assert(front[j] == headers[j]);
            assert(headers.last() == headers[headers.len() - 1]);
        }
        lemma_name_index_is(front, headers.last().0, -1);
        assert(front.push(headers.last()) =~= headers);
    } else {
        assert(last_values(headers) =~= headers);
    }
}

/// No name comes twice among the headers that are stored.
pub proof fn lemma_recorded_headers_distinct(upstream: Seq<(Seq<char>, Seq<u8>)>)
    ensures
        distinct_names(recorded_headers_of(upstream)),
    decreases upstream.len(),
{
    if upstream.len() > 0 {
        lemma_recorded_headers_distinct(upstream.drop_last());
        if !is_connection(upstream.last().0) {
            lemma_put_header_distinct(
                recorded_headers_of(upstream.drop_last()),
                upstream.last().0,
                text_or_empty(upstream.last().1),
            );
        }
    }
}

/// No header named `Connection` is among the headers that are stored.
pub proof fn lemma_recorded_headers_without_connection(upstream: Seq<(Seq<char>, Seq<u8>)>)
    ensures
        forall|i: int|
            0 <= i < recorded_headers_of(upstream).len() ==> !is_connection(
                (#[trigger] recorded_headers_of(upstream)[i]).0,
            ),
    decreases upstream.len(),
{
    if upstream.len() > 0 {
        lemma_recorded_headers_without_connection(upstream.drop_last());
        lemma_name_index(recorded_headers_of(upstream.drop_last()), upstream.last().0);
    }
}

/// Headers of which none is named `Connection` are passed on as they are.
pub proof fn lemma_nothing_to_strip<T>(headers: Seq<(Seq<char>, T)>)
    requires
        forall|i: int| 0 <= i < headers.len() ==> !is_connection((#[trigger] headers[i]).0),
    ensures
        without_connection(headers) == headers,
    decreases headers.len(),
{
    if headers.len() > 0 {
        assert forall|i: int| 0 <= i < headers.drop_last().len() implies !is_connection(
            (#[trigger] headers.drop_last()[i]).0,
        ) by {
            assert(headers.drop_last()[i] == headers[i]);
        }
        lemma_nothing_to_strip(headers.drop_last());
        assert(!is_connection(headers[headers.len() - 1].0));
        assert(headers.drop_last().push(headers.last()) =~= headers);
    } else {
        assert(without_connection(headers) =~= headers);
    }
}

/// The position of the last header named `name`.
pub fn find_header(headers: &Vec<(String, String)>, name: &str) -> (found: Option<usize>)
    ensures
        match found {
            Some(i) => i == name_index(headers.deep_view(), name@) && i < headers.len(),
            None => name_index(headers.deep_view(), name@) == -1,
        },
{
    let ghost all = headers.deep_view();
    let mut i: usize = headers.len();
    while i > 0
        invariant
            i <= headers.len(),
            all == headers.deep_view(),
            forall|j: int| i <= j < all.len() ==> (#[trigger] all[j]).0 != name@,
        decreases i,
    {
        i -= 1;
        if str_eq(headers[i].0.as_str(), name) {
            proof {
                lemma_name_index_is(all, name@, i as int);
            }
            return Some(i);
        }
    }
    proof {
        lemma_name_index_is(all, name@, -1);
    }
    None
}

/// Makes `value` the value of the header `name`.
pub fn set_header(headers: &mut Vec<(String, String)>, name: String, value: String)
    ensures
        final(headers).deep_view() == put_header(old(headers).deep_view(), name@, value@),
{
    match find_header(headers, name.as_str()) {
        Some(i) => {
            headers.set(i, (name, value));
            assert(headers.deep_view() =~= old(headers).deep_view().update(
                i as int,
                (name@, value@),
            ));
        },
        None => {
            headers.push((name, value));
            assert(headers.deep_view() =~= old(headers).deep_view().push((name@, value@)));
        },
    }
}

/// Keeps of each name one header, with the value that came last.
pub fn settle_headers(headers: Vec<(String, String)>) -> (settled: Vec<(String, String)>)
    ensures
        settled.deep_view() == last_values(headers.deep_view()),
{
    let ghost all = headers.deep_view();
    let ghost given = headers@;
    let mut settled: Vec<(String, String)> = Vec::new();
    assert(settled.deep_view() =~= Seq::empty());
    assert(all.take(0) =~= Seq::empty());
    for header in it: headers
        invariant
            it.seq() == given,
            all.len() == given.len(),
            forall|j: int| 0 <= j < given.len() ==> all[j] == (given[j].0@, given[j].1@),
            settled.deep_view() == last_values(all.take(it.index())),
    {
        proof {
            let n = it.index();
            assert(all.take(n + 1).drop_last() == all.take(n));
            assert(all.take(n + 1).last() == all[n]);
        }
        set_header(&mut settled, header.0, header.1);
    }
    assert(all.take(all.len() as int) == all);
    settled
}

/// The headers to store for the headers of an upstream response.
pub fn recorded_headers(upstream: Vec<(String, Vec<u8>)>) -> (stored: Vec<(String, String)>)
    ensures
        stored.deep_view() == recorded_headers_of(upstream.deep_view()),
{
    let ghost all = upstream.deep_view();
    let ghost given = upstream@;
    let mut stored: Vec<(String, String)> = Vec::new();
    assert(stored.deep_view() =~= Seq::empty());
    assert(all.take(0) =~= Seq::empty());
    for header in it: upstream
        invariant
            it.seq() == given,
            all.len() == given.len(),
            forall|j: int| 0 <= j < given.len() ==> all[j] == (given[j].0@, given[j].1.deep_view()),
            stored.deep_view() == recorded_headers_of(all.take(it.index())),
    {
        proof {
            let n = it.index();
            assert(all.take(n + 1).drop_last() == all.take(n));
            assert(all.take(n + 1).last() == all[n]);
            assert(header.1.deep_view() =~= header.1@);
        }
        if !eq_ignore_case(header.0.as_str(), "connection") {
            let value = decode_or_empty(header.1);
            set_header(&mut stored, header.0, value);
        }
    }
    assert(all.take(all.len() as int) == all);
    stored
}

/// The record of an upstream response.
pub fn build_record(status: u16, headers: Vec<(String, Vec<u8>)>, body: Vec<u8>) -> (record:
    Record)
    requires
        100 <= status <= 999,
    ensures
        record@ == record_of(status, headers.deep_view(), body@),
        replay_status_of(record@.status) == status,
        without_connection(record@.headers) == record@.headers,
        last_values(record@.headers) == record@.headers,
{
    proof {
        lemma_recorded_headers_without_connection(headers.deep_view());
        lemma_nothing_to_strip(recorded_headers_of(headers.deep_view()));
        lemma_recorded_headers_distinct(headers.deep_view());
        lemma_last_values_same(recorded_headers_of(headers.deep_view()));
    }
    Record {
        status: status_for_record(status),
        headers: recorded_headers(headers),
        body: decode_or_empty(body),
    }
}

} // verus!
