//! What holds of the life cycle of a query, over any history of requests.
use vstd::prelude::*;
use crate::error::ErrorKind;
use crate::query_registrar::{
    after_begin, after_finish, after_register, begin_refusal, finish_refusal, is_running,
    not_running, register_refusal, QueryMap, QueryWindow,
};

verus! {

/// A request to the queries of one database.
pub enum QueryRequest<P> {
    Register { name: Seq<char>, source_path: Seq<char>, plan: P },
    Begin { name: Seq<char>, window: QueryWindow },
    Finish { name: Seq<char> },
}

/// Whether `request` is granted when the queries are `queries`.
pub open spec fn granted<P>(queries: QueryMap<P>, request: QueryRequest<P>) -> bool {
    match request {
        QueryRequest::Register { name, .. } => register_refusal(queries, name) is None,
        QueryRequest::Begin { name, .. } => begin_refusal(queries, name) is None,
        QueryRequest::Finish { name } => finish_refusal(queries, name) is None,
    }
}

/// The queries once `request` has been answered: changed as the request
/// asks if it is granted, and as they were if it is refused.
pub open spec fn answered<P>(queries: QueryMap<P>, request: QueryRequest<P>) -> QueryMap<P> {
    if !granted(queries, request) {
        queries
    } else {
        match request {
            QueryRequest::Register { name, source_path, plan } => after_register(
                queries,
                name,
                source_path,
                plan,
            ),
            QueryRequest::Begin { name, window } => after_begin(queries, name, window),
            QueryRequest::Finish { name } => after_finish(queries, name),
        }
    }
}

/// The queries once every one of `requests` has been answered, in order.
pub open spec fn answered_all<P>(queries: QueryMap<P>, requests: Seq<QueryRequest<P>>) -> QueryMap<P>
    decreases requests.len(),
{
    if requests.len() == 0 {
        queries
    } else {
        answered(answered_all(queries, requests.drop_last()), requests.last())
    }
}

/// Whether the request at `i` began `name`, was granted, and no request
/// after it asked to finish `name`.
pub open spec fn begun_and_open_at<P>(
    queries: QueryMap<P>,
    requests: Seq<QueryRequest<P>>,
    name: Seq<char>,
    i: int,
) -> bool {
    &&& 0 <= i < requests.len()
    &&& requests[i] is Begin
    &&& requests[i]->Begin_name == name
    &&& granted(answered_all(queries, requests.take(i)), requests[i])
    &&& forall|j: int|
        i < j < requests.len() ==> !(#[trigger] requests[j] is Finish && requests[j]->Finish_name
            == name)
}

/// A query that has begun can finish: after a begin that was granted, the
/// request to finish the same query is granted.
pub proof fn law_finish_follows_begin<P>(queries: QueryMap<P>, name: Seq<char>, window: QueryWindow)
    requires
        begin_refusal(queries, name) is None,
    ensures
        finish_refusal(after_begin(queries, name, window), name) is None,
{
}

/// A query finishes once: after a finish that was granted, a second request
/// to finish the same query is refused as a wrong state transition, and
/// the query can begin again.
pub proof fn law_finish_only_once<P>(queries: QueryMap<P>, name: Seq<char>)
    requires
        finish_refusal(queries, name) is None,
    ensures
        finish_refusal(after_finish(queries, name), name) == Some(not_running(name)),
        not_running(name).kind == ErrorKind::StateTransition,
        begin_refusal(after_finish(queries, name), name) is None,
{
}

/// A request is about one query: it leaves every other query as it was.
pub proof fn law_requests_are_local<P>(
    queries: QueryMap<P>,
    request: QueryRequest<P>,
    other: Seq<char>,
)
    requires
        other != match request {
            QueryRequest::Register { name, .. } => name,
            QueryRequest::Begin { name, .. } => name,
            QueryRequest::Finish { name } => name,
        },
    ensures
        answered(queries, request).contains_key(other) == queries.contains_key(other),
        queries.contains_key(other) ==> answered(queries, request)[other] == queries[other],
{
}

/// Over any history of requests to a database in which `name` was not
/// running at first, a request to finish `name` is granted if and only if
/// an earlier request to begin `name` was granted and no request to finish
/// `name` came after it.
pub proof fn law_finish_iff_begun<P>(
    queries: QueryMap<P>,
    requests: Seq<QueryRequest<P>>,
    name: Seq<char>,
)
    requires
        !is_running(queries, name),
    ensures
        finish_refusal(answered_all(queries, requests), name) is None <==> exists|i: int|
            begun_and_open_at(queries, requests, name, i),
    decreases requests.len(),
{
    let now = answered_all(queries, requests);
    if requests.len() == 0 {
        assert(forall|i: int| !begun_and_open_at(queries, requests, name, i));
    } else {
        let earlier = requests.drop_last();
        let last = requests.last();
        let n = earlier.len() as int;
        let before = answered_all(queries, earlier);
        law_finish_iff_begun(queries, earlier, name);
        assert forall|i: int| 0 <= i <= n implies #[trigger] requests.take(i) == earlier.take(i) by {
            assert(requests.take(i) =~= earlier.take(i));
        }
        assert(earlier.take(n) =~= earlier);
        let closes = last is Finish && last->Finish_name == name;
        let opens = last is Begin && last->Begin_name == name;
        if closes {
            assert(!is_running(now, name));
            assert forall|i: int| !begun_and_open_at(queries, requests, name, i) by {
                if begun_and_open_at(queries, requests, name, i) {
                    assert(requests[n] is Finish);
                }
            }
        } else if opens && granted(before, last) {
            assert(is_running(now, name));
            assert(begun_and_open_at(queries, requests, name, n));
        } else {
            assert(is_running(now, name) == is_running(before, name));
            if is_running(before, name) {
                let i = choose|i: int| begun_and_open_at(queries, earlier, name, i);
                assert(requests[i] == earlier[i]);
                assert forall|j: int| i < j < requests.len() implies !(#[trigger] requests[j]
                    is Finish && requests[j]->Finish_name == name) by {
                    if j < n {
                        assert(requests[j] == earlier[j]);
                    }
                }
                assert(begun_and_open_at(queries, requests, name, i));
            } else {
                assert forall|i: int| !begun_and_open_at(queries, requests, name, i) by {
                    if begun_and_open_at(queries, requests, name, i) {
                        if i < n {
                            assert(requests[i] == earlier[i]);
                            assert forall|j: int| i < j < earlier.len() implies !(
                            #[trigger] earlier[j] is Finish && earlier[j]->Finish_name == name) by {
                                assert(requests[j] == earlier[j]);
                            }
                            assert(begun_and_open_at(queries, earlier, name, i));
                        }
                    }
                }
            }
        }
    }
}

} // verus!
