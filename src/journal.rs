use vstd::prelude::*;
use vstd::string::StringExecFns;
use crate::ports::split_on;

verus! {

/// The text that opens the results artifact: `{"results":[`.
pub open spec fn artifact_head() -> Seq<char> {
    "{\"results\":["@
}

/// The text that closes the results artifact: `]}`.
pub open spec fn artifact_tail() -> Seq<char> {
    "]}"@
}

/// JSON objects separated by commas.
pub open spec fn joined(items: Seq<Seq<char>>) -> Seq<char>
    decreases items.len(),
{
    if items.len() == 0 {
        Seq::empty()
    } else if items.len() == 1 {
        items[0]
    } else {
        joined(items.drop_last()) + ","@ + items.last()
    }
}

/// The results artifact: one JSON object with the array of all results.
pub open spec fn artifact(items: Seq<Seq<char>>) -> Seq<char> {
    artifact_head() + joined(items) + artifact_tail()
}

/// The journal: each result's JSON object on a line of its own.
pub open spec fn journal_text(items: Seq<Seq<char>>) -> Seq<char>
    decreases items.len(),
{
    if items.len() == 0 {
        Seq::empty()
    } else {
        journal_text(items.drop_last()) + items.last() + seq!['\n']
    }
}

pub open spec fn non_empty(l: Seq<char>) -> bool {
    l.len() > 0
}

/// The non-empty lines of a text.
pub open spec fn journal_lines(t: Seq<char>) -> Seq<Seq<char>> {
    split_on(t, '\n').filter(|l: Seq<char>| non_empty(l))
}

/// A line the journal can hold: non-empty, with no line break in it.
pub open spec fn journal_line_ok(l: Seq<char>) -> bool {
    l.len() > 0 && !l.contains('\n')
}

/// The journal line of one result's JSON object.
pub fn journal_line(obj: &str) -> (r: String)
    ensures
        r@ == obj@ + seq!['\n'],
{
    let r = obj.to_owned().concat("\n");
    proof {
        reveal_strlit("\n");
    }
    assert(r@ =~= obj@ + seq!['\n']);
    r
}

/// Writes the results array piece by piece, so that results never need to be
/// held together: the head, one piece per result, then the tail.
pub struct ResultsFramer {
    pub wrote_any: bool,
    /// The results framed so far.
    pub items: Ghost<Seq<Seq<char>>>,
}

impl ResultsFramer {
    pub open spec fn wf(&self) -> bool {
        self.wrote_any == (self.items@.len() > 0)
    }

    /// A framer with nothing written, and the head to write first.
    pub fn open() -> (r: (ResultsFramer, String))
        ensures
            r.0.wf(),
            r.0.items@ == Seq::<Seq<char>>::empty(),
            r.1@ == artifact_head(),
    {
        (ResultsFramer { wrote_any: false, items: Ghost(Seq::empty()) }, "{\"results\":[".to_owned())
    }

    /// The piece that adds one result's JSON object to the array; an empty
    /// line adds nothing.
    pub fn push(&mut self, obj: &str) -> (chunk: String)
        requires
            old(self).wf(),
        ensures
            final(self).wf(),
            obj@.len() == 0 ==> chunk@.len() == 0 && final(self).items@ == old(self).items@,
            obj@.len() > 0 ==> final(self).items@ == old(self).items@.push(obj@),
            joined(final(self).items@) == joined(old(self).items@) + chunk@,
    {
        if obj.is_empty() {
            let r = String::new();
            assert(joined(old(self).items@) + r@ =~= joined(old(self).items@));
            return r;
        }
        let ghost prev = self.items@;
        let chunk = if self.wrote_any {
            ",".to_owned().concat(obj)
        } else {
            obj.to_owned()
        };
        self.wrote_any = true;
        self.items = Ghost(prev.push(obj@));
        proof {
            let now = self.items@;
            assert(now.drop_last() =~= prev);
            if prev.len() == 0 {
                assert(joined(prev) + chunk@ =~= chunk@);
            } else {
                assert(joined(now) =~= joined(prev) + chunk@);
            }
        }
        chunk
    }

    /// The text that closes the array and the artifact.
    pub fn close(self) -> (r: String)
        ensures
            r@ == artifact_tail(),
    {
        "]}".to_owned()
    }
}

/// With no results the artifact is exactly `{"results":[]}`.
pub proof fn lemma_empty_artifact()
    ensures
        artifact(Seq::empty()) == "{\"results\":[]}"@,
{
    reveal_strlit("{\"results\":[");
    reveal_strlit("]}");
    reveal_strlit("{\"results\":[]}");
    assert(artifact(Seq::empty()) =~= "{\"results\":[]}"@);
}

/// Reading the journal back gives the results that were written to it, in
/// order; so the artifact assembled from the journal is the artifact of
/// those results.
pub proof fn lemma_journal_round_trip(items: Seq<Seq<char>>)
    requires
        forall|i: int| 0 <= i < items.len() ==> journal_line_ok(#[trigger] items[i]),
    ensures
        journal_lines(journal_text(items)) == items,
        artifact(journal_lines(journal_text(items))) == artifact(items),
{
    lemma_split_journal(items);
    lemma_filter_trailing_empty(items);
}

/// Text with no line break extends the last line.
proof fn lemma_split_append(t: Seq<char>, x: Seq<char>)
    requires
        !x.contains('\n'),
    ensures
        split_on(t + x, '\n') == split_on(t, '\n').update(
            split_on(t, '\n').len() - 1,
            split_on(t, '\n').last() + x,
        ),
        split_on(t, '\n').len() >= 1,
    decreases x.len(),
{
    lemma_split_len(t);
    if x.len() == 0 {
        assert(t + x =~= t);
        assert(split_on(t, '\n').last() + x =~= split_on(t, '\n').last());
        assert(split_on(t, '\n').update(split_on(t, '\n').len() - 1, split_on(t, '\n').last())
            =~= split_on(t, '\n'));
    } else {
        let y = x.drop_last();
        assert(!y.contains('\n')) by {
            if y.contains('\n') {
                let k = choose|k: int| 0 <= k < y.len() && y[k] == '\n';
                assert(x[k] == '\n');
            }
        }
        assert(x.last() != '\n') by {
            assert(x[x.len() - 1] == x.last());
        }
        lemma_split_append(t, y);
        assert((t + x).drop_last() =~= t + y);
        assert((t + x).last() == x.last());
        let s = split_on(t, '\n');
        let prev = split_on(t + y, '\n');
        assert(prev.len() == s.len());
        assert(prev.last() == s.last() + y);
        assert(split_on(t + x, '\n') == prev.update(prev.len() - 1, prev.last().push(x.last())));
        assert((s.last() + y).push(x.last()) =~= s.last() + x);
        assert(split_on(t + x, '\n') =~= s.update(s.len() - 1, s.last() + x));
    }
}

proof fn lemma_split_len(t: Seq<char>)
    ensures
        split_on(t, '\n').len() >= 1,
    decreases t.len(),
{
    if t.len() > 0 {
        lemma_split_len(t.drop_last());
    }
}

proof fn lemma_split_journal(items: Seq<Seq<char>>)
    requires
        forall|i: int| 0 <= i < items.len() ==> journal_line_ok(#[trigger] items[i]),
    ensures
        split_on(journal_text(items), '\n') == items.push(Seq::empty()),
    decreases items.len(),
{
    if items.len() == 0 {
        assert(split_on(Seq::<char>::empty(), '\n') =~= seq![Seq::<char>::empty()]);
        assert(items.push(Seq::empty()) =~= seq![Seq::<char>::empty()]);
    } else {
        let prev = items.drop_last();
        assert forall|i: int| 0 <= i < prev.len() implies journal_line_ok(#[trigger] prev[i]) by {
            assert(prev[i] == items[i]);
        }
        lemma_split_journal(prev);
        let x = items.last();
        assert(journal_line_ok(items[items.len() - 1]));
        let t = journal_text(prev);
        lemma_split_append(t, x);
        let with_x = t + x;
        assert(journal_text(items) =~= with_x + seq!['\n']);
        assert((with_x + seq!['\n']).drop_last() =~= with_x);
        assert(prev.push(Seq::empty()).update(prev.len() as int, Seq::empty() + x) =~= items);
    }
}

proof fn lemma_filter_trailing_empty(items: Seq<Seq<char>>)
    requires
        forall|i: int| 0 <= i < items.len() ==> journal_line_ok(#[trigger] items[i]),
    ensures
        items.push(Seq::empty()).filter(|l: Seq<char>| non_empty(l)) == items,
{
    reveal(Seq::filter);
    assert(items.push(Seq::empty()).drop_last() =~= items);
    lemma_filter_keeps_all(items);
}

proof fn lemma_filter_keeps_all(items: Seq<Seq<char>>)
    requires
        forall|i: int| 0 <= i < items.len() ==> journal_line_ok(#[trigger] items[i]),
    ensures
        items.filter(|l: Seq<char>| non_empty(l)) == items,
    decreases items.len(),
{
    reveal(Seq::filter);
    if items.len() > 0 {
        let prev = items.drop_last();
        assert forall|i: int| 0 <= i < prev.len() implies journal_line_ok(#[trigger] prev[i]) by {
            assert(prev[i] == items[i]);
        }
        lemma_filter_keeps_all(prev);
        assert(journal_line_ok(items[items.len() - 1]));
        assert(prev.push(items.last()) =~= items);
    }
}

} // verus!
