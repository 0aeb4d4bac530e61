use crate::table::{find_key, keys_unique, lemma_table_remove, table_of};
use vstd::prelude::*;

verus! {

/// The connections lent out for one tick, by id. Taking one removes it, so
/// no connection is handed out twice within a tick.
pub struct Ports<E> {
    inner: Vec<(String, E)>,
}

impl<E> View for Ports<E> {
    type V = Map<Seq<char>, E>;

    closed spec fn view(&self) -> Map<Seq<char>, E> {
        table_of(self.inner@)
    }
}

impl<E> Ports<E> {
    /// No id occurs twice.
    pub closed spec fn wf(&self) -> bool {
        keys_unique(self.inner@)
    }

    pub(crate) fn new(inner: Vec<(String, E)>) -> (r: Self)
        requires
            keys_unique(inner@),
        ensures
            r.wf(),
            r@ == table_of(inner@),
    {
        Ports { inner }
    }

    /// How many connections are left to take.
    pub fn len(&self) -> (r: usize)
        requires
            self.wf(),
        ensures
            r == self@.len(),
    {
        proof {
            lemma_table_len(self.inner@);
        }
        self.inner.len()
    }

    /// Takes the connection with this id out of the set; `None` when there
    /// is none, or when it was already taken in this tick.
    pub fn get_port(&mut self, id: &str) -> (r: Option<E>)
        requires
            old(self).wf(),
        ensures
            final(self).wf(),
            old(self)@.contains_key(id@) ==> r == Some(old(self)@[id@]) && final(self)@ == old(
                self,
            )@.remove(id@),
            !old(self)@.contains_key(id@) ==> r is None && final(self)@ == old(self)@,
    {
        match find_key(&self.inner, id) {
            Some(i) => {
                proof {
                    crate::table::lemma_table_index(self.inner@, i as int);
                    lemma_table_remove(self.inner@, i as int);
                }
                let (_, e) = self.inner.remove(i);
                Some(e)
            },
            None => None,
        }
    }

    /// Every connection left, with its id, in no particular order.
    pub fn all_ports(self) -> (r: Vec<(String, E)>)
        requires
            self.wf(),
        ensures
            keys_unique(r@),
            table_of(r@) == self@,
    {
        self.inner
    }
}

/// A table with unique keys has one key per entry.
pub proof fn lemma_table_len<V>(s: Seq<(String, V)>)
    requires
        keys_unique(s),
    ensures
        table_of(s).len() == s.len(),
        table_of(s).dom().finite(),
    decreases s.len(),
{
    if s.len() == 0 {
        assert(table_of(s).dom() =~= Set::<Seq<char>>::empty());
    } else {
        let t = s.drop_last();
        assert(s =~= t.push(s.last()));
        assert(keys_unique(t)) by {
            assert forall|i: int, j: int|
                0 <= i < t.len() && 0 <= j < t.len() && i != j implies (#[trigger] t[i]).0@ != (
                #[trigger] t[j]).0@ by {
                assert(t[i] == s[i] && t[j] == s[j]);
            }
        }
        lemma_table_len(t);
        assert(!crate::table::has_key(t, s.last().0@)) by {
            if crate::table::has_key(t, s.last().0@) {
                let i = choose|i: int| 0 <= i < t.len() && (#[trigger] t[i]).0@ == s.last().0@;
                assert(t[i] == s[i]);
                assert(s[s.len() - 1] == s.last());
            }
        }
        crate::table::lemma_table_push(t, s.last().0, s.last().1);
    }
}

/// Within one tick a connection is handed out at most once: after it was
/// taken, a second request for the same id finds nothing, while the other
/// connections stay.
pub proof fn lemma_take_once<E>(before: Map<Seq<char>, E>, id: Seq<char>)
    ensures
        !before.remove(id).contains_key(id),
        forall|k: Seq<char>| k != id ==> (#[trigger] before.remove(id).contains_key(k)) == before.contains_key(k),
{
}

} // verus!
