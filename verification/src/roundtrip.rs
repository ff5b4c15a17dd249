//! What is saved can be loaded again: the laws that tie the text of saved
//! links to what reading it gives back.

use vstd::prelude::*;
use crate::node::Node;
use crate::nodelink::{NodeLink, SHORTEST_ROW, all_join, fields_of, ids_of, joins, loaded, resolved,
    row_text};
use crate::shape::Shape;
use crate::text::{COMMA, NEWLINE, decimal, flag_of, flag_text, lemma_sep_pos, sep_pos};

verus! {

/// A number's decimal text holds digits only, and at least one.
pub proof fn lemma_decimal_digits(n: nat)
    ensures
        decimal(n).len() >= 1,
        forall|k: int| 0 <= k < decimal(n).len() ==> 48 <= #[trigger] decimal(n)[k] <= 57,
    decreases n,
{
    if n >= 10 {
        lemma_decimal_digits(n / 10);
    }
}

/// Two numbers with the same decimal text are the same number.
pub proof fn lemma_decimal_injective(a: nat, b: nat)
    requires
        decimal(a) == decimal(b),
    ensures
        a == b,
    decreases a,
{
    lemma_decimal_digits(a / 10);
    lemma_decimal_digits(b / 10);
    if a < 10 && b < 10 {
        assert(decimal(a)[0] == (48 + a) as u8);
        assert(decimal(b)[0] == (48 + b) as u8);
    } else if a >= 10 && b >= 10 {
        let da = decimal(a / 10);
        let db = decimal(b / 10);
        assert(decimal(a) == da.push((48 + a % 10) as u8));
        assert(decimal(b) == db.push((48 + b % 10) as u8));
        assert(decimal(a).drop_last() =~= da);
        assert(decimal(b).drop_last() =~= db);
        assert(decimal(a).last() == (48 + a % 10) as u8);
        assert(decimal(b).last() == (48 + b % 10) as u8);
        lemma_decimal_injective(a / 10, b / 10);
        assert(a % 10 == b % 10);
    } else if a < 10 {
        assert(decimal(a).len() == 1);
        assert(decimal(b).len() == decimal(b / 10).len() + 1);
    } else {
        assert(decimal(b).len() == 1);
        assert(decimal(a).len() == decimal(a / 10).len() + 1);
    }
}

/// The line of a link, without the byte that ends it, holds no such byte.
pub proof fn lemma_row_has_no_newline(from: u64, to: u64, flag: bool)
    ensures
        forall|k: int|
            0 <= k < row_text(from, to, flag).len() ==> #[trigger] row_text(from, to, flag)[k]
                != NEWLINE,
{
    lemma_decimal_digits(from as nat);
    lemma_decimal_digits(to as nat);
    let f = decimal(from as nat);
    let t = decimal(to as nat);
    let row = row_text(from, to, flag);
    assert forall|k: int| 0 <= k < row.len() implies #[trigger] row[k] != NEWLINE by {
        if k < f.len() {
            assert(row[k] == f[k]);
        } else if k == f.len() {
        } else if k < f.len() + 1 + t.len() {
            assert(row[k] == t[k - f.len() - 1]);
        } else if k == f.len() + 1 + t.len() {
        } else {
            assert(row[k] == flag_text(flag)[k - f.len() - t.len() - 2]);
        }
    }
}

/// The line of a link has the link's two identities and its flag as its
/// fields.
pub proof fn lemma_row_fields(from: u64, to: u64, flag: bool)
    ensures
        fields_of(row_text(from, to, flag)) == Some(
            (decimal(from as nat), decimal(to as nat), flag),
        ),
{
    lemma_decimal_digits(from as nat);
    lemma_decimal_digits(to as nat);
    let f = decimal(from as nat);
    let t = decimal(to as nat);
    let w = flag_text(flag);
    let row = row_text(from, to, flag);
    assert forall|k: int| 0 <= k < f.len() implies row[k] != COMMA by {
        assert(row[k] == f[k]);
    }
    assert(row[f.len() as int] == COMMA);
    lemma_sep_pos(row, COMMA, f.len() as int);
    let second = row.skip(f.len() as int + 1);
    assert(second =~= t + seq![COMMA] + w);
    assert forall|k: int| 0 <= k < t.len() implies second[k] != COMMA by {
        assert(second[k] == t[k]);
    }
    assert(second[t.len() as int] == COMMA);
    lemma_sep_pos(second, COMMA, t.len() as int);
    let third = second.skip(t.len() as int + 1);
    assert(third =~= w);
    assert forall|k: int| 0 <= k < w.len() implies w[k] != COMMA by {}
    lemma_sep_pos(third, COMMA, w.len() as int);
    assert(third.take(w.len() as int) =~= w);
    assert(flag_text(true).len() != flag_text(false).len());
    assert(flag_of(w) == Some(flag));
    assert(row.take(f.len() as int) =~= f);
    assert(second.take(t.len() as int) =~= t);
}

/// Two places of a list name the same nodes as two others, as far as a
/// saved link can tell: the identities at them are the same.
pub open spec fn same_ends<T: Shape>(list: Seq<Node<T>>, a: (int, int, bool), b: (int, int, bool)) -> bool {
    &&& 0 <= a.0 < list.len() && 0 <= a.1 < list.len()
    &&& 0 <= b.0 < list.len() && 0 <= b.1 < list.len()
    &&& list[a.0].hash == list[b.0].hash
    &&& list[a.1].hash == list[b.1].hash
    &&& a.2 == b.2
}

/// The line of a link between two nodes of a list, read against that list,
/// gives a link between nodes of the same identities, with the same flag.
pub proof fn lemma_row_round_trip<T: Shape>(list: Seq<Node<T>>, link: (int, int, bool))
    requires
        0 <= link.0 < list.len(),
        0 <= link.1 < list.len(),
    ensures
        resolved(row_text(list[link.0].hash, list[link.1].hash, link.2), list).is_some(),
        same_ends(
            list,
            resolved(row_text(list[link.0].hash, list[link.1].hash, link.2), list).unwrap(),
            link,
        ),
{
    let ids = ids_of(list);
    let from = list[link.0].id_text();
    let to = list[link.1].id_text();
    lemma_row_fields(list[link.0].hash, list[link.1].hash, link.2);
    assert(ids[link.0] == from);
    assert(ids[link.1] == to);
    assert(ids.contains(from));
    assert(ids.contains(to));
    ids.index_of_first_ensures(from);
    ids.index_of_first_ensures(to);
    let a = ids.index_of_first(from).unwrap();
    let b = ids.index_of_first(to).unwrap();
    assert(ids[a] == list[a].id_text());
    assert(ids[b] == list[b].id_text());
    lemma_decimal_injective(list[a].hash as nat, list[link.0].hash as nat);
    lemma_decimal_injective(list[b].hash as nat, list[link.1].hash as nat);
}

/// The text that a list of links leaves when each is saved in turn: their
/// lines, each ended by a newline.
pub open spec fn saved<T: Shape>(links: Seq<(int, int, bool)>, list: Seq<Node<T>>) -> Seq<u8>
    decreases links.len(),
{
    if links.len() == 0 {
        Seq::empty()
    } else {
        row_text(list[links[0].0].hash, list[links[0].1].hash, links[0].2) + seq![NEWLINE] + saved(
            links.drop_first(),
            list,
        )
    }
}

/// Saving one more link appends its line to what the others left.
pub proof fn lemma_saved_push<T: Shape>(
    links: Seq<(int, int, bool)>,
    list: Seq<Node<T>>,
    link: (int, int, bool),
)
    ensures
        saved(links.push(link), list) == saved(links, list) + row_text(
            list[link.0].hash,
            list[link.1].hash,
            link.2,
        ) + seq![NEWLINE],
    decreases links.len(),
{
    let more = links.push(link);
    let line = row_text(list[link.0].hash, list[link.1].hash, link.2) + seq![NEWLINE];
    if links.len() == 0 {
        assert(more.drop_first() =~= Seq::<(int, int, bool)>::empty());
        assert(saved(more.drop_first(), list) =~= Seq::<u8>::empty());
        assert(saved(more, list) =~= saved(links, list) + row_text(
            list[link.0].hash,
            list[link.1].hash,
            link.2,
        ) + seq![NEWLINE]);
    } else {
        lemma_saved_push(links.drop_first(), list, link);
        assert(more.drop_first() =~= links.drop_first().push(link));
        assert(more[0] == links[0]);
        assert(saved(more, list) =~= saved(links, list) + row_text(
            list[link.0].hash,
            list[link.1].hash,
            link.2,
        ) + seq![NEWLINE]);
    }
}

/// Every link of a list joins two places of the node list, and its line is
/// long enough to be read back.
pub open spec fn all_readable<T: Shape>(links: Seq<(int, int, bool)>, list: Seq<Node<T>>) -> bool {
    forall|k: int|
        0 <= k < links.len() ==> {
            &&& 0 <= (#[trigger] links[k]).0 < list.len()
            &&& 0 <= links[k].1 < list.len()
            &&& row_text(list[links[k].0].hash, list[links[k].1].hash, links[k].2).len()
                >= SHORTEST_ROW
        }
}

/// Links that were saved and are loaded against the same list of nodes
/// come back one for one, in their order, each between nodes of the same
/// identities and with the same flag. This holds of links whose lines are
/// not shorter than the shortest line that is read.
pub proof fn lemma_save_load_round_trip<T: Shape>(links: Seq<(int, int, bool)>, list: Seq<Node<T>>)
    requires
        all_readable(links, list),
    ensures
        loaded(saved(links, list), list).is_some(),
        loaded(saved(links, list), list).unwrap().len() == links.len(),
        forall|k: int|
            0 <= k < links.len() ==> same_ends(
                list,
                #[trigger] loaded(saved(links, list), list).unwrap()[k],
                links[k],
            ),
    decreases links.len(),
{
    let s = saved(links, list);
    if links.len() == 0 {
        assert(s.take(0).len() == 0);
    } else {
        let first = links[0];
        let row = row_text(list[first.0].hash, list[first.1].hash, first.2);
        let tail = links.drop_first();
        assert forall|k: int| 0 <= k < tail.len() implies {
            &&& 0 <= (#[trigger] tail[k]).0 < list.len()
            &&& 0 <= tail[k].1 < list.len()
            &&& row_text(list[tail[k].0].hash, list[tail[k].1].hash, tail[k].2).len()
                >= SHORTEST_ROW
        } by {
            assert(tail[k] == links[k + 1]);
        }
        lemma_save_load_round_trip(tail, list);
        lemma_row_round_trip(list, first);
        lemma_row_has_no_newline(list[first.0].hash, list[first.1].hash, first.2);
        assert forall|j: int| 0 <= j < row.len() implies s[j] != NEWLINE by {
            assert(s[j] == row[j]);
        }
        assert(s[row.len() as int] == NEWLINE);
        lemma_sep_pos(s, NEWLINE, row.len() as int);
        assert(s.take(row.len() as int) =~= row);
        assert(s.skip(row.len() as int + 1) =~= saved(tail, list));
        let back = loaded(s, list).unwrap();
        let others = loaded(saved(tail, list), list).unwrap();
        assert(back =~= seq![resolved(row, list).unwrap()] + others);
        assert forall|k: int| 0 <= k < links.len() implies same_ends(
            list,
            #[trigger] back[k],
            links[k],
        ) by {
            if k > 0 {
                assert(back[k] == others[k - 1]);
                assert(tail[k - 1] == links[k]);
            }
        }
    }
}

/// The text that `save` leaves behind when it is called on each link of a
/// list in turn, starting from an empty text.
pub open spec fn text_of<T: Shape>(links: Seq<NodeLink<T>>) -> Seq<u8>
    decreases links.len(),
{
    if links.len() == 0 {
        Seq::empty()
    } else {
        text_of(links.drop_last()) + row_text(
            links.last().from.hash,
            links.last().to.hash,
            links.last().omnidirectional,
        ) + seq![NEWLINE]
    }
}

/// The text of links that join places of a list is the text saved for
/// those places.
pub proof fn lemma_text_of_saved<T: Shape>(
    links: Seq<NodeLink<T>>,
    list: Seq<Node<T>>,
    at: Seq<(int, int, bool)>,
)
    requires
        all_join(links, list, at),
    ensures
        text_of(links) == saved(at, list),
    decreases links.len(),
{
    if links.len() > 0 {
        let fewer = links.drop_last();
        let before = at.drop_last();
        assert(all_join(fewer, list, before)) by {
            assert forall|k: int| 0 <= k < fewer.len() implies joins(
                #[trigger] fewer[k],
                list,
                before[k],
            ) by {
                assert(fewer[k] == links[k]);
                assert(before[k] == at[k]);
            }
        }
        lemma_text_of_saved(fewer, list, before);
        lemma_saved_push(before, list, at.last());
        assert(before.push(at.last()) =~= at);
        assert(joins(links.last(), list, at.last()));
    }
}

/// Links between nodes of a list that are saved one after another and
/// then loaded against the same list come back one for one, in their
/// order: each loaded link joins nodes of the same identities as the link
/// that was saved, and carries the same flag. This holds of links whose
/// lines are not shorter than the shortest line that is read.
pub proof fn lemma_links_round_trip<T: Shape>(
    links: Seq<NodeLink<T>>,
    list: Seq<Node<T>>,
    at: Seq<(int, int, bool)>,
)
    requires
        all_join(links, list, at),
        all_readable(at, list),
    ensures
        loaded(text_of(links), list).is_some(),
        loaded(text_of(links), list).unwrap().len() == links.len(),
        forall|k: int|
            0 <= k < links.len() ==> {
                let back = #[trigger] loaded(text_of(links), list).unwrap()[k];
                &&& 0 <= back.0 < list.len() && 0 <= back.1 < list.len()
                &&& list[back.0].hash == links[k].from.hash
                &&& list[back.1].hash == links[k].to.hash
                &&& back.2 == links[k].omnidirectional
            },
{
    lemma_text_of_saved(links, list, at);
    lemma_save_load_round_trip(at, list);
    let back = loaded(text_of(links), list).unwrap();
    assert forall|k: int| 0 <= k < links.len() implies {
        let b = #[trigger] back[k];
        &&& 0 <= b.0 < list.len() && 0 <= b.1 < list.len()
        &&& list[b.0].hash == links[k].from.hash
        &&& list[b.1].hash == links[k].to.hash
        &&& b.2 == links[k].omnidirectional
    } by {
        assert(same_ends(list, back[k], at[k]));
        assert(joins(links[k], list, at[k]));
    }
}

} // verus!
