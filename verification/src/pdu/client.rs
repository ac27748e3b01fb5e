//! The request sent to a unit and the reading of its answer.
use vstd::prelude::*;
use crate::text::{views, chars_of, push_char, trimmed, trim, split_on};
use super::RAW_DATA_LENGTH;

verus! {

/// The status address of the unit at `target`.
pub fn status_url(target: &str) -> (url: String)
    ensures
        url@ == "http://"@ + target@ + "/status.cgi"@,
{
    let mut url = String::from_str("http://");
    url.append(target);
    url.append("/status.cgi");
    url
}

/// The pieces of `s` between question marks.
pub fn split_question_marks(s: &str) -> (pieces: Vec<String>)
    ensures
        views(pieces@) == split_on(s@, '?'),
{
    let cs = chars_of(s);
    let n = cs.len();
    let mut pieces: Vec<String> = Vec::new();
    let mut cur = String::new();
    let mut i: usize = 0;
    assert(cs@.take(0) =~= Seq::<char>::empty());
    assert(views(pieces@).push(cur@) =~= split_on(cs@.take(0), '?'));
    while i < n
        invariant
            i <= n,
            n == cs@.len(),
            cs@ == s@,
            views(pieces@).push(cur@) == split_on(cs@.take(i as int), '?'),
        decreases n - i,
    {
        let c = cs[i];
        let ghost prev = split_on(cs@.take(i as int), '?');
        assert(cs@.take(i + 1).drop_last() =~= cs@.take(i as int));
        assert(cs@.take(i + 1).last() == c);
        if c == '?' {
            let ghost old_pieces = pieces@;
            let done = cur;
            pieces.push(done);
            assert(views(pieces@) =~= views(old_pieces).push(done@));
            cur = String::new();
            assert(views(pieces@).push(cur@) =~= prev.push(Seq::<char>::empty()));
        } else {
            push_char(&mut cur, c);
            assert(views(pieces@).push(cur@) =~= prev.update(prev.len() - 1, prev.last().push(c)));
        }
        i = i + 1;
    }
    assert(cs@.take(n as int) =~= cs@);
    let ghost old_pieces = pieces@;
    pieces.push(cur);
    assert(views(pieces@) =~= views(old_pieces).push(cur@));
    pieces
}

/// The fields of a status answer: the pieces of the body between question
/// marks, each without surrounding white space.
pub fn status_fields(body: &str) -> (fields: Vec<String>)
    ensures
        views(fields@) == split_on(body@, '?').map_values(|p: Seq<char>| trim(p)),
{
    let pieces = split_question_marks(body);
    let ghost ps = views(pieces@);
    let mut fields: Vec<String> = Vec::new();
    let mut i: usize = 0;
    while i < pieces.len()
        invariant
            i <= pieces@.len(),
            ps == views(pieces@),
            ps == split_on(body@, '?'),
            views(fields@) == ps.take(i as int).map_values(|p: Seq<char>| trim(p)),
        decreases pieces@.len() - i,
    {
        let f = trimmed(pieces[i].as_str());
        assert(ps[i as int] == pieces@[i as int]@);
        let ghost old_fields = fields@;
        fields.push(f);
        assert(views(fields@) =~= views(old_fields).push(f@));
        i = i + 1;
        assert(ps.take(i as int).map_values(|p: Seq<char>| trim(p)) =~= ps.take(i - 1).map_values(
            |p: Seq<char>| trim(p),
        ).push(trim(ps[i - 1])));
    }
    assert(ps.take(i as int) =~= ps);
    fields
}


/// The fields of a status answer when it has the structure of one, that is
/// at least as many fields as a status answer holds; `None` for a shorter
/// answer, which is answered as unprocessable.
pub fn status_answer(body: &str) -> (r: Option<Vec<String>>)
    ensures
        match r {
            Some(fields) => views(fields@) == split_on(body@, '?').map_values(|p: Seq<char>| trim(p))
                && fields@.len() >= RAW_DATA_LENGTH,
            None => split_on(body@, '?').len() < RAW_DATA_LENGTH,
        },
{
    let fields = status_fields(body);
    assert(views(fields@).len() == fields@.len());
    if fields.len() >= RAW_DATA_LENGTH {
        Some(fields)
    } else {
        None
    }
}

} // verus!
