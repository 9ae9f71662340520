//! The allowed-version list: parsing the version source's document into the
//! plain list the core validates against, and filtering that list for
//! completion suggestions.

use vstd::prelude::*;

use crate::errors::ClientError;
use crate::text::{spec_contains, str_contains};

verus! {

/// At most this many suggestions are handed back to the front-end.
pub const MAX_SUGGESTIONS: usize = 25;

/// What the version source's document parses to: the list of version
/// strings when the document is a well-formed array of strings, and nothing
/// otherwise. The result depends on the document alone.
pub uninterp spec fn parsed_string_list(s: Seq<char>) -> Option<Seq<Seq<char>>>;

/// Relies on `serde_json::from_str::<Vec<String>>`: parses a JSON array of
/// strings, deterministically in its input; the error is reported as text.
#[verifier::external_body]
fn parse_string_list(s: &str) -> (r: Result<Vec<String>, String>)
    ensures
        r is Ok <==> parsed_string_list(s@) is Some,
        r matches Ok(v) ==> parsed_string_list(s@) == Some(v.deep_view()),
{
    serde_json::from_str::<Vec<String>>(s).map_err(|e| e.to_string())
}

/// Parses the version source's document into the allowed-version list, or
/// reports the source's failure as a `StorageError`.
pub fn load_versions(json: &String) -> (r: Result<Vec<String>, ClientError>)
    ensures
        r is Ok <==> parsed_string_list(json@) is Some,
        r matches Ok(v) ==> parsed_string_list(json@) == Some(v.deep_view()),
        r matches Err(e) ==> e matches ClientError::StorageError(_),
{
    match parse_string_list(json.as_str()) {
        Ok(v) => Ok(v),
        Err(cause) => Err(ClientError::StorageError(cause)),
    }
}

/// The versions of `vs` that contain `q`, in order.
pub open spec fn matching(vs: Seq<Seq<char>>, q: Seq<char>) -> Seq<Seq<char>>
    decreases vs.len(),
{
    if vs.len() == 0 {
        Seq::<Seq<char>>::empty()
    } else {
        matching(vs.drop_last(), q) + if spec_contains(vs.last(), q) {
            seq![vs.last()]
        } else {
            Seq::<Seq<char>>::empty()
        }
    }
}

/// Extending the scanned prefix by one version extends its matches by that
/// version exactly when it contains the query.
proof fn lemma_matching_step(vs: Seq<Seq<char>>, q: Seq<char>, i: int)
    requires
        0 <= i < vs.len(),
    ensures
        matching(vs.take(i + 1), q) == matching(vs.take(i), q) + if spec_contains(vs[i], q) {
            seq![vs[i]]
        } else {
            Seq::<Seq<char>>::empty()
        },
{
    assert(vs.take(i + 1).drop_last() =~= vs.take(i));
    assert(vs.take(i + 1).last() == vs[i]);
}

/// The matches of a scanned prefix are a prefix of the matches of the whole
/// list.
proof fn lemma_matching_take_prefix(vs: Seq<Seq<char>>, q: Seq<char>, i: int)
    requires
        0 <= i <= vs.len(),
    ensures
        matching(vs.take(i), q).is_prefix_of(matching(vs, q)),
    decreases vs.len() - i,
{
    if i == vs.len() {
        assert(vs.take(i) =~= vs);
    } else {
        lemma_matching_step(vs, q, i);
        lemma_matching_take_prefix(vs, q, i + 1);
    }
}

/// The versions of `versions` that contain `query`, in their stored order,
/// truncated to the first `MAX_SUGGESTIONS` of them.
pub fn filter_versions(versions: &Vec<String>, query: &String) -> (r: Vec<String>)
    ensures
        r.deep_view() == (if matching(versions.deep_view(), query@).len() <= MAX_SUGGESTIONS {
            matching(versions.deep_view(), query@)
        } else {
            matching(versions.deep_view(), query@).take(MAX_SUGGESTIONS as int)
        }),
{
    let n = versions.len();
    let mut out: Vec<String> = Vec::new();
    let mut i: usize = 0;
    proof {
        assert(versions.deep_view().take(0) =~= Seq::<Seq<char>>::empty());
        assert(versions.deep_view().len() == versions@.len());
    }
    while i < n && out.len() < MAX_SUGGESTIONS
        invariant
            i <= n,
            n == versions@.len(),
            versions.deep_view().len() == n,
            out@.len() <= MAX_SUGGESTIONS,
            out.deep_view() == matching(versions.deep_view().take(i as int), query@),
        decreases n - i,
    {
        proof {
            lemma_matching_step(versions.deep_view(), query@, i as int);
            assert(versions.deep_view()[i as int] == versions@[i as int]@);
        }
        if str_contains(versions[i].as_str(), query.as_str()) {
            out.push(versions[i].clone());
            proof {
                assert(out.deep_view() =~= matching(
                    versions.deep_view().take(i + 1),
                    query@,
                ));
            }
        } else {
            proof {
                assert(out.deep_view() =~= matching(
                    versions.deep_view().take(i + 1),
                    query@,
                ));
            }
        }
        i += 1;
    }
    proof {
        let all = matching(versions.deep_view(), query@);
        lemma_matching_take_prefix(versions.deep_view(), query@, i as int);
        if i == n {
            assert(versions.deep_view().take(i as int) =~= versions.deep_view());
        } else {
            assert(out.deep_view().len() == MAX_SUGGESTIONS);
            assert(out.deep_view() =~= all.take(MAX_SUGGESTIONS as int));
            if all.len() <= MAX_SUGGESTIONS {
                assert(out.deep_view() =~= all);
            }
        }
    }
    out
}

} // verus!
