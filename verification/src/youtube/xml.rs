//! Reading a channel's feed.

use vstd::prelude::*;
use vstd::string::*;
use crate::api::texts;
use crate::text::{find_part, first_at, to_chars};

verus! {

/// The texts that stand in `text` from `from` on between an opening mark and
/// the closing mark that follows it, read from left to right: after a closing
/// mark the search for the next opening mark goes on behind it. An opening
/// mark that no closing mark follows ends the reading.
pub open spec fn enclosed(text: Seq<char>, open: Seq<char>, close: Seq<char>, from: int) -> Seq<
    Seq<char>,
>
    decreases text.len() - from,
    when from >= 0 && close.len() > 0
{
    if exists|o: int| first_at(text, open, from, o) {
        let o = choose|o: int| first_at(text, open, from, o);
        let start = o + open.len();
        if exists|c: int| first_at(text, close, start, c) {
            let c = choose|c: int| first_at(text, close, start, c);
            seq![text.subrange(start, c)] + enclosed(text, open, close, c + close.len())
        } else {
            Seq::empty()
        }
    } else {
        Seq::empty()
    }
}

/// The ids of the videos that a channel's feed lists, in its order: what
/// stands between `<yt:videoId>` and `</yt:videoId>`.
pub open spec fn feed_ids(feed: Seq<char>) -> Seq<Seq<char>> {
    enclosed(feed, "<yt:videoId>"@, "</yt:videoId>"@, 0)
}

/// There is one first position at most.
proof fn lemma_first_at_unique(text: Seq<char>, part: Seq<char>, from: int, i: int, j: int)
    requires
        first_at(text, part, from, i),
        first_at(text, part, from, j),
    ensures
        i == j,
{
}

/// The ids of the videos that a channel's feed lists, in its order.
pub fn video_ids(feed: &str) -> (ids: Vec<String>)
    ensures
        texts(ids@) == feed_ids(feed@),
{
    let text = to_chars(feed);
    let open = to_chars("<yt:videoId>");
    let close = to_chars("</yt:videoId>");
    proof {
        reveal_strlit("<yt:videoId>");
        reveal_strlit("</yt:videoId>");
    }
    let mut ids: Vec<String> = Vec::new();
    let mut from: usize = 0;
    assert(texts(ids@) + enclosed(text@, open@, close@, 0) =~= feed_ids(feed@));
    loop
        invariant
            text@ == feed@,
            open@ == "<yt:videoId>"@,
            close@ == "</yt:videoId>"@,
            open.len() == 12,
            close.len() == 13,
            from <= text.len(),
            texts(ids@) + enclosed(text@, open@, close@, from as int) == feed_ids(feed@),
        ensures
            texts(ids@) == feed_ids(feed@),
        decreases text.len() - from,
    {
        let ghost sofar = texts(ids@);
        let found = find_part(&text, &open, from);
        let o = match found {
            Some(o) => o,
            None => {
                assert(!exists|o: int| first_at(text@, open@, from as int, o));
                assert(sofar + Seq::<Seq<char>>::empty() =~= sofar);
                break ;
            },
        };
        proof {
            let w = choose|w: int| first_at(text@, open@, from as int, w);
            lemma_first_at_unique(text@, open@, from as int, o as int, w);
        }
        let start = o + open.len();
        let c = match find_part(&text, &close, start) {
            Some(c) => c,
            None => {
                assert(!exists|c: int| first_at(text@, close@, start as int, c));
                assert(sofar + Seq::<Seq<char>>::empty() =~= sofar);
                break ;
            },
        };
        proof {
            let w = choose|w: int| first_at(text@, close@, start as int, w);
            lemma_first_at_unique(text@, close@, start as int, c as int, w);
        }
        let id = String::from_str(feed.substring_char(start, c));
        ids.push(id);
        proof {
            let next = c + close.len();
            assert(texts(ids@) =~= sofar.push(text@.subrange(start as int, c as int)));
            assert(enclosed(text@, open@, close@, from as int) == seq![
                text@.subrange(start as int, c as int),
            ] + enclosed(text@, open@, close@, next as int));
            assert(texts(ids@) + enclosed(text@, open@, close@, next as int) =~= sofar + enclosed(
                text@,
                open@,
                close@,
                from as int,
            ));
        }
        from = c + close.len();
    }
    ids
}

} // verus!
