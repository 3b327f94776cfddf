use vstd::multiset::Multiset;
use vstd::prelude::*;

use crate::text::chars;

verus! {

/// One directory item prepared for display: its raw name, the string that is
/// printed for it (the name with any styling around it), and the number of
/// terminal columns that string occupies.
pub struct Entry {
    name: String,
    display: String,
    visible_width: usize,
}

impl Entry {
    /// The columns an entry occupies on screen: one per character of its
    /// name, whatever styling its display string adds.
    pub closed spec fn width(&self) -> nat {
        self.visible_width as nat
    }

    pub closed spec fn name_view(&self) -> Seq<char> {
        self.name@
    }

    pub closed spec fn display_view(&self) -> Seq<char> {
        self.display@
    }

    /// The visible width is the name's length, and styling never makes the
    /// printed string shorter than what it shows.
    pub closed spec fn wf(&self) -> bool {
        &&& self.visible_width == self.name@.len()
        &&& self.name@.len() <= self.display@.len()
    }

    /// Builds an entry from a name and the styled string that displays it.
    /// Fails when the styled string is shorter than the name it shows.
    pub fn new(name: String, display: String) -> (r: Option<Entry>)
        ensures
            r is Some <==> name@.len() <= display@.len(),
            r matches Some(e) ==> e.wf() && e.name_view() == name@ && e.display_view() == display@
                && e.width() == name@.len(),
    {
        let n: usize = name.as_str().unicode_len();
        let d: usize = display.as_str().unicode_len();
        if n <= d {
            Some(Entry { name, display, visible_width: n })
        } else {
            None
        }
    }

    /// An entry printed as its bare name, with no styling.
    pub fn plain(name: String) -> (r: Entry)
        ensures
            r.wf(),
            r.name_view() == name@,
            r.display_view() == name@,
            r.width() == name@.len(),
    {
        let n: usize = name.as_str().unicode_len();
        let display = name.clone();
        Entry { name, display, visible_width: n }
    }

    pub fn visible_width(&self) -> (r: usize)
        ensures
            r == self.width(),
    {
        self.visible_width
    }

    pub fn name(&self) -> (r: &str)
        ensures
            r@ == self.name_view(),
    {
        self.name.as_str()
    }

    pub fn display(&self) -> (r: &str)
        ensures
            r@ == self.display_view(),
    {
        self.display.as_str()
    }
}

/// Case-sensitive lexicographic order on names, character by character
/// (the order of `str`, since UTF-8 keeps the order of code points).
pub open spec fn name_le(a: Seq<char>, b: Seq<char>) -> bool
    decreases a.len(),
{
    if a.len() == 0 {
        true
    } else if b.len() == 0 {
        false
    } else if (a[0] as u32) < (b[0] as u32) {
        true
    } else if (a[0] as u32) > (b[0] as u32) {
        false
    } else {
        name_le(a.drop_first(), b.drop_first())
    }
}

/// Entries in order of their names.
pub open spec fn sorted_by_name(s: Seq<Entry>) -> bool {
    forall|i: int, j: int| 0 <= i < j < s.len() ==> name_le(#[trigger] s[i].name_view(), #[trigger] s[j].name_view())
}

pub proof fn lemma_name_le_total(a: Seq<char>, b: Seq<char>)
    ensures
        name_le(a, b) || name_le(b, a),
    decreases a.len(),
{
    if a.len() > 0 && b.len() > 0 && a[0] as u32 == b[0] as u32 {
        lemma_name_le_total(a.drop_first(), b.drop_first());
    }
}

pub proof fn lemma_name_le_trans(a: Seq<char>, b: Seq<char>, c: Seq<char>)
    requires
        name_le(a, b),
        name_le(b, c),
    ensures
        name_le(a, c),
    decreases a.len(),
{
    if a.len() > 0 && b.len() > 0 && c.len() > 0 && a[0] as u32 == b[0] as u32
        && b[0] as u32 == c[0] as u32 {
        lemma_name_le_trans(a.drop_first(), b.drop_first(), c.drop_first());
    }
}

proof fn lemma_name_le_skip(a: Seq<char>, b: Seq<char>, i: int)
    requires
        0 <= i <= a.len(),
        i <= b.len(),
        forall|k: int| 0 <= k < i ==> a[k] as u32 == b[k] as u32,
    ensures
        name_le(a, b) == name_le(a.skip(i), b.skip(i)),
    decreases i,
{
    if i > 0 {
        assert(a[0] as u32 == b[0] as u32);
        assert forall|k: int| 0 <= k < i - 1 implies a.drop_first()[k] as u32 == b.drop_first()[k] as u32 by {
            assert(a[k + 1] as u32 == b[k + 1] as u32);
        }
        lemma_name_le_skip(a.drop_first(), b.drop_first(), i - 1);
        assert(a.drop_first().skip(i - 1) =~= a.skip(i));
        assert(b.drop_first().skip(i - 1) =~= b.skip(i));
    } else {
        assert(a.skip(0) =~= a);
        assert(b.skip(0) =~= b);
    }
}

/// Whether name `a` comes no later than name `b`.
pub fn name_le_exec(a: &str, b: &str) -> (r: bool)
    ensures
        r == name_le(a@, b@),
{
    let x = chars(a);
    let y = chars(b);
    let mut i: usize = 0;
    while i < x.len() && i < y.len() && (x[i] as u32) == (y[i] as u32)
        invariant
            x@ == a@,
            y@ == b@,
            i <= x@.len(),
            i <= y@.len(),
            forall|k: int| 0 <= k < i ==> x@[k] as u32 == y@[k] as u32,
        decreases x@.len() - i,
    {
        i = i + 1;
    }
    proof {
        lemma_name_le_skip(a@, b@, i as int);
    }
    if i == x.len() {
        true
    } else if i == y.len() {
        false
    } else {
        (x[i] as u32) < (y[i] as u32)
    }
}

/// Puts a batch in order of names. The result holds the same entries.
pub fn sort_entries(entries: Vec<Entry>) -> (r: Vec<Entry>)
    ensures
        sorted_by_name(r@),
        r@.to_multiset() == entries@.to_multiset(),
{
    broadcast use vstd::seq_lib::group_to_multiset_ensures, vstd::multiset::group_multiset_axioms;

    let mut input = entries;
    let mut out: Vec<Entry> = Vec::new();
    while input.len() > 0
        invariant
            sorted_by_name(out@),
            out@.to_multiset().add(input@.to_multiset()) == entries@.to_multiset(),
        decreases input@.len(),
    {
        let ghost before = input@;
        let e = input.pop().unwrap();
        assert(before == input@.push(e));
        let mut p: usize = 0;
        while p < out.len() && name_le_exec(out[p].name(), e.name())
            invariant
                p <= out@.len(),
                forall|q: int| 0 <= q < p ==> name_le(#[trigger] out@[q].name_view(), e.name_view()),
            decreases out@.len() - p,
        {
            p = p + 1;
        }
        let ghost old_out = out@;
        proof {
            if p < old_out.len() {
                lemma_name_le_total(old_out[p as int].name_view(), e.name_view());
            }
        }
        out.insert(p, e);
        proof {
            let n = out@;
            assert forall|i: int, j: int| 0 <= i < j < n.len() implies name_le(
                #[trigger] n[i].name_view(),
                #[trigger] n[j].name_view(),
            ) by {
                if j < p {
                    assert(n[i] == old_out[i] && n[j] == old_out[j]);
                } else if j == p {
                    assert(n[i] == old_out[i]);
                } else if i == p {
                    assert(n[j] == old_out[j - 1]);
                    if j - 1 > p {
                        assert(name_le(old_out[p as int].name_view(), old_out[j - 1].name_view()));
                        lemma_name_le_trans(e.name_view(), old_out[p as int].name_view(), old_out[j - 1].name_view());
                    }
                } else if i < p {
                    assert(n[i] == old_out[i] && n[j] == old_out[j - 1]);
                } else {
                    assert(n[i] == old_out[i - 1] && n[j] == old_out[j - 1]);
                }
            }
            vstd::seq_lib::to_multiset_insert(old_out, p as int, e);
            input@.to_multiset_ensures();
            assert(input@.push(e).to_multiset() =~= input@.to_multiset().insert(e));
            assert(before == input@.push(e));
            assert(out@.to_multiset().add(input@.to_multiset()) =~= old_out.to_multiset().add(before.to_multiset()));
        }
    }
    proof {
        assert(input@.to_multiset() =~= Multiset::empty());
    }
    out
}

} // verus!
