use vstd::prelude::*;

use crate::date::Date;

verus! {

/// A card on the board.
pub struct KanbanCard {
    pub id: u64,
    pub title: String,
    pub description: String,
    pub start_date: Option<Date>,
    pub end_date: Option<Date>,
}

/// What a card holds, with its texts as character sequences and its dates as
/// day numbers.
pub struct CardView {
    pub id: u64,
    pub title: Seq<char>,
    pub description: Seq<char>,
    pub start_date: Option<int>,
    pub end_date: Option<int>,
}

/// The day number of an optional date.
pub open spec fn opt_day(d: Option<Date>) -> Option<int> {
    match d {
        Some(x) => Some(x@),
        None => None,
    }
}

impl View for KanbanCard {
    type V = CardView;

    open spec fn view(&self) -> CardView {
        CardView {
            id: self.id,
            title: self.title@,
            description: self.description@,
            start_date: opt_day(self.start_date),
            end_date: opt_day(self.end_date),
        }
    }
}

impl Clone for KanbanCard {
    fn clone(&self) -> (r: Self)
        ensures
            r == *self,
    {
        KanbanCard {
            id: self.id,
            title: self.title.clone(),
            description: self.description.clone(),
            start_date: self.start_date,
            end_date: self.end_date,
        }
    }
}

/// What a sequence of cards holds.
pub open spec fn cards_view(s: Seq<KanbanCard>) -> Seq<CardView> {
    Seq::new(s.len(), |i: int| s[i]@)
}

pub proof fn lemma_cards_view_push(s: Seq<KanbanCard>, c: KanbanCard)
    ensures
        cards_view(s.push(c)) == cards_view(s).push(c@),
{
    assert(cards_view(s.push(c)) =~= cards_view(s).push(c@));
}

pub proof fn lemma_cards_view_insert(s: Seq<KanbanCard>, i: int, c: KanbanCard)
    requires
        0 <= i <= s.len(),
    ensures
        cards_view(s.insert(i, c)) == cards_view(s).insert(i, c@),
{
    s.insert_ensures(i, c);
    cards_view(s).insert_ensures(i, c@);
    assert(cards_view(s.insert(i, c)) =~= cards_view(s).insert(i, c@));
}

pub proof fn lemma_cards_view_remove(s: Seq<KanbanCard>, i: int)
    requires
        0 <= i < s.len(),
    ensures
        cards_view(s.remove(i)) == cards_view(s).remove(i),
{
    s.remove_ensures(i);
    cards_view(s).remove_ensures(i);
    assert(cards_view(s.remove(i)) =~= cards_view(s).remove(i));
}

pub proof fn lemma_cards_view_update(s: Seq<KanbanCard>, i: int, c: KanbanCard)
    requires
        0 <= i < s.len(),
    ensures
        cards_view(s.update(i, c)) == cards_view(s).update(i, c@),
{
    assert(cards_view(s.update(i, c)) =~= cards_view(s).update(i, c@));
}

} // verus!
