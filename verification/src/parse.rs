//! Checking a log against a dialect without writing anything.

use crate::context::Context;
use crate::error::{Error, ErrorView};
use crate::event::EventView;
use crate::format::Decode;
use crate::stream::{decode_all, decoded_text, item_views, result_view};
use vstd::prelude::*;

verus! {

/// The errors among the first `n` items, in order.
pub open spec fn failures(items: Seq<Result<EventView, ErrorView>>, n: nat) -> Seq<ErrorView>
    decreases n,
{
    if n == 0 {
        Seq::empty()
    } else {
        match items[n - 1] {
            Ok(_) => failures(items, (n - 1) as nat),
            Err(e) => failures(items, (n - 1) as nat).push(e),
        }
    }
}

/// Errors, each by its view.
pub open spec fn error_views(errors: Seq<Error>) -> Seq<ErrorView> {
    errors.map_values(|e: Error| e@)
}

/// Decodes the whole log and returns what was wrong with it: the error of
/// every line that decodes to one, in order. An error does not end the
/// run.
pub fn parse<D: Decode>(context: &Context, input: &str, decoder: &D) -> (errors: Vec<Error>)
    ensures
        error_views(errors@) == failures(
            decoded_text(*decoder, context@, input@),
            decoded_text(*decoder, context@, input@).len(),
        ),
{
    let items = decode_all(context, input, decoder);
    let ghost all = item_views(items@);
    let mut errors: Vec<Error> = Vec::new();
    proof {
        assert(error_views(errors@) =~= Seq::empty());
    }
    for item in it: items.into_iter()
        invariant
            item_views(it.seq()) == all,
            error_views(errors@) == failures(all, it.index() as nat),
    {
        let ghost before = error_views(errors@);
        proof {
            assert(all[it.index() as int] == result_view(item));
        }
        match item {
            Ok(_) => {},
            Err(e) => {
                errors.push(e);
                proof {
                    assert(error_views(errors@) =~= before.push(e@));
                }
            },
        }
    }
    errors
}

} // verus!
