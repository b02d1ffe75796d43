//! What a command computes once the database is loaded.

use crate::args::SearchArgs;
use crate::database::sorting::{attribute_key, sort_by_attribute, sorted_by};
use crate::database::storage::{SearchResult, SearchResultView};
use crate::database::Database;
use crate::search::lexer::tokens_of;
use crate::search::parser::parse_tokens;
use crate::search::SearchError;
use crate::text::push_char;
use vstd::prelude::*;
use vstd::string::StringExecFns;

verus! {

/// The words `terms` in a row, with one space between each two.
pub open spec fn joined(terms: Seq<Seq<char>>) -> Seq<char>
    decreases terms.len(),
{
    if terms.len() == 0 {
        Seq::empty()
    } else if terms.len() == 1 {
        terms[0]
    } else {
        joined(terms.drop_last()) + seq![' '] + terms.last()
    }
}

/// The files `files` in the order of the attribute `sort_by`, or as they are
/// where none is named.
pub open spec fn ordered(files: Seq<SearchResultView>, sort_by: Option<Seq<char>>) -> Seq<
    SearchResultView,
> {
    match sort_by {
        Some(key) => sorted_by(files, attribute_key(key)),
        None => files,
    }
}

/// The first `limit` of `files`, or all of them where there are fewer or no
/// limit is set.
pub open spec fn limited(files: Seq<SearchResultView>, limit: Option<usize>) -> Seq<
    SearchResultView,
> {
    match limit {
        Some(n) => if n <= files.len() {
            files.take(n as int)
        } else {
            files
        },
        None => files,
    }
}

/// The query that the words `terms` make: the words with a space between
/// each two.
pub fn join_terms(terms: &Vec<String>) -> (query: String)
    ensures
        query@ == joined(terms.deep_view()),
{
    let ghost all = terms.deep_view();
    let mut query = String::new();
    let mut i: usize = 0;
    assert(all.take(0) =~= Seq::<Seq<char>>::empty());
    while i < terms.len()
        invariant
            i <= terms.len(),
            all == terms.deep_view(),
            query@ == joined(all.take(i as int)),
        decreases terms.len() - i,
    {
        proof {
            assert(all.take(i + 1).drop_last() =~= all.take(i as int));
            assert(all.take(i + 1).last() == all[i as int]);
            if i == 0 {
                assert(all.take(1)[0] == all[0]);
                assert(Seq::<char>::empty() + all[0] =~= all[0]);
            }
        }
        if i > 0 {
            push_char(&mut query, ' ');
        }
        query.append(terms[i].as_str());
        i = i + 1;
    }
    assert(all.take(terms.len() as int) =~= all);
    query
}

/// Searches the database: the files that match the query made of
/// `args.search_terms`, ordered by path, then by the attribute
/// `args.sort_by` if one is named, and of these the first `args.limit` if a
/// limit is set. Fails where the query does not parse.
pub fn search(database: &Database, args: &SearchArgs) -> (r: Result<
    Vec<SearchResult>,
    SearchError,
>)
    ensures
        match parse_tokens(tokens_of(joined(args.search_terms.deep_view()))) {
            Err(e) => r matches Err(SearchError::ParseError(error)) && error == e,
            Ok(query) => r matches Ok(results) && results.deep_view() == limited(
                ordered(database@.search(query), args.sort_by.deep_view()),
                args.limit,
            ),
        },
{
    let query = join_terms(&args.search_terms);
    let search_expr = match crate::search::parse(query.as_str()) {
        Ok(expression) => expression,
        Err(e) => {
            return Err(e);
        },
    };
    let mut results = database.search(search_expr);
    match &args.sort_by {
        Some(key) => {
            sort_by_attribute(&mut results, key.as_str());
        },
        None => {},
    }
    match args.limit {
        Some(limit) => {
            let ghost before = results.deep_view();
            results.truncate(limit);
            proof {
                if limit <= before.len() {
                    assert(results.deep_view() =~= before.take(limit as int));
                } else {
                    assert(results.deep_view() =~= before);
                }
            }
        },
        None => {},
    }
    Ok(results)
}

} // verus!
