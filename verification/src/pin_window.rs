use vstd::prelude::*;
use crate::label::{sanitize_label, window_label};
use crate::text::string_push;

verus! {

/// Where a pin is shown.
pub enum PinWindow {
    /// The window with this label already shows the address: focus it.
    Focus(String),
    /// No window shows the address: open one with this label.
    Open(String),
}

/// The open pin windows, as label and address.
pub open spec fn open_views(open: Seq<(String, String)>) -> Seq<(Seq<char>, Seq<char>)> {
    open.map_values(|w: (String, String)| (w.0@, w.1@))
}

/// The label of the first open window that shows `url`, if any.
pub open spec fn window_showing(open: Seq<(Seq<char>, Seq<char>)>, url: Seq<char>) -> Option<Seq<char>>
    decreases open.len(),
{
    if open.len() == 0 {
        None
    } else if open[0].1 == url {
        Some(open[0].0)
    } else {
        window_showing(open.drop_first(), url)
    }
}

/// Some open window has the label `label`.
pub open spec fn label_taken(open: Seq<(Seq<char>, Seq<char>)>, label: Seq<char>) -> bool {
    exists|i: int| 0 <= i < open.len() && #[trigger] open[i].0 == label
}

/// The length of the longest label of an open window (0 when none is open).
pub open spec fn longest_label(open: Seq<(Seq<char>, Seq<char>)>) -> nat
    decreases open.len(),
{
    if open.len() == 0 {
        0
    } else {
        let rest = longest_label(open.drop_last());
        if open.last().0.len() > rest {
            open.last().0.len()
        } else {
            rest
        }
    }
}

/// The label for a new window: the address's own label when no open window
/// has it, otherwise that label followed by dashes up to one character more
/// than the longest open label.
pub open spec fn fresh_label(open: Seq<(Seq<char>, Seq<char>)>, base: Seq<char>) -> Seq<char> {
    if label_taken(open, base) {
        base + Seq::new((longest_label(open) + 1 - base.len()) as nat, |i: int| '-')
    } else {
        base
    }
}

proof fn lemma_longest_label(open: Seq<(Seq<char>, Seq<char>)>)
    ensures
        forall|i: int| 0 <= i < open.len() ==> (#[trigger] open[i]).0.len() <= longest_label(open),
    decreases open.len(),
{
    if open.len() > 0 {
        lemma_longest_label(open.drop_last());
        assert forall|i: int| 0 <= i < open.len() implies (#[trigger] open[i]).0.len() <= longest_label(open) by {
            if i < open.len() - 1 {
                assert(open[i] == open.drop_last()[i]);
            }
        }
    }
}

proof fn lemma_window_showing(open: Seq<(Seq<char>, Seq<char>)>, url: Seq<char>)
    ensures
        window_showing(open, url) matches Some(l) ==> exists|i: int| 0 <= i < open.len() && #[trigger] open[i] == (l, url),
        window_showing(open, url) is None ==> forall|i: int| 0 <= i < open.len() ==> (#[trigger] open[i]).1 != url,
    decreases open.len(),
{
    if open.len() > 0 {
        lemma_window_showing(open.drop_first(), url);
        if open[0].1 != url {
            if let Some(l) = window_showing(open, url) {
                let j = choose|j: int| 0 <= j < open.drop_first().len() && #[trigger] open.drop_first()[j] == (l, url);
                assert(open[j + 1] == (l, url));
            } else {
                assert forall|i: int| 0 <= i < open.len() implies (#[trigger] open[i]).1 != url by {
                    if i > 0 {
                        assert(open[i] == open.drop_first()[i - 1]);
                    }
                }
            }
        } else {
            assert(open[0] == (open[0].0, url));
        }
    }
}

/// Law: a fresh label is the label of no open window.
pub proof fn lemma_fresh_label_unused(open: Seq<(Seq<char>, Seq<char>)>, base: Seq<char>)
    ensures
        !label_taken(open, fresh_label(open, base)),
{
    if label_taken(open, base) {
        lemma_longest_label(open);
        let j = choose|j: int| 0 <= j < open.len() && #[trigger] open[j].0 == base;
        assert(open[j].0.len() <= longest_label(open));
        let l = fresh_label(open, base);
        assert(l.len() == longest_label(open) + 1);
        if label_taken(open, l) {
            let k = choose|k: int| 0 <= k < open.len() && #[trigger] open[k].0 == l;
            assert(open[k].0.len() <= longest_label(open));
        }
    }
}

/// Law: a new window gets the address's own label unchanged whenever no
/// open window has that label; otherwise it gets that label followed by
/// dashes only.
pub proof fn lemma_fresh_label_plain_when_free(open: Seq<(Seq<char>, Seq<char>)>, base: Seq<char>)
    ensures
        !label_taken(open, base) ==> fresh_label(open, base) == base,
        fresh_label(open, base).len() >= base.len(),
        fresh_label(open, base).take(base.len() as int) == base,
        forall|i: int|
            base.len() <= i < fresh_label(open, base).len() ==> #[trigger] fresh_label(open, base)[i] == '-',
{
    let l = fresh_label(open, base);
    assert(l.take(base.len() as int) =~= base);
    if label_taken(open, base) {
        assert forall|i: int| base.len() <= i < l.len() implies #[trigger] l[i] == '-' by {}
    }
}

/// Decides the window for the pin `url`, given the pin windows that are
/// open (label and address): a window that shows that very address is
/// focused; otherwise a new window is opened, labelled with the address's
/// label (`sanitize_label`) or, when another address's window already has
/// that label, with that label followed by enough dashes to be unused.
pub fn choose_pin_window(url: &str, open: &Vec<(String, String)>) -> (w: PinWindow)
    ensures
        match (w, window_showing(open_views(open@), url@)) {
            (PinWindow::Focus(l), Some(t)) => l@ == t,
            (PinWindow::Open(l), None) => l@ == fresh_label(open_views(open@), window_label(url@)),
            _ => false,
        },
        !label_taken(open_views(open@), window_label(url@)) ==> (w matches PinWindow::Open(l) ==> l@
            == window_label(url@)),
        w matches PinWindow::Focus(l) ==> exists|i: int|
            0 <= i < open@.len() && #[trigger] open_views(open@)[i] == (l@, url@),
        w matches PinWindow::Open(l) ==> forall|i: int|
            0 <= i < open@.len() ==> (#[trigger] open_views(open@)[i]).1 != url@ && open_views(open@)[i].0 != l@,
{
    let ghost views = open_views(open@);
    let target = url.to_owned();
    let mut i: usize = 0;
    proof {
        assert(views.skip(0) =~= views);
        lemma_window_showing(views, url@);
    }
    while i < open.len()
        invariant
            i <= open.len(),
            views == open_views(open@),
            target@ == url@,
            window_showing(views, url@) == window_showing(views.skip(i as int), url@),
        decreases open.len() - i,
    {
        proof {
            assert(views.skip(i as int)[0] == (open@[i as int].0@, open@[i as int].1@));
            assert(views.skip(i as int).drop_first() =~= views.skip(i + 1));
        }
        if open[i].1 == target {
            return PinWindow::Focus(open[i].0.clone());
        }
        i = i + 1;
    }
    proof {
        assert(views.skip(open.len() as int).len() == 0);
    }
    let mut label = sanitize_label(url);
    let base_len = label.as_str().unicode_len();
    let ghost base = label@;
    let mut taken = false;
    let mut longest: usize = 0;
    let mut j: usize = 0;
    proof {
        assert(views.take(0) =~= Seq::<(Seq<char>, Seq<char>)>::empty());
    }
    while j < open.len()
        invariant
            j <= open.len(),
            views == open_views(open@),
            label@ == base,
            taken == label_taken(views.take(j as int), base),
            longest == longest_label(views.take(j as int)),
        decreases open.len() - j,
    {
        let len = open[j].0.as_str().unicode_len();
        let ghost prefix = views.take(j as int);
        let ghost next = views.take(j + 1);
        proof {
            assert(views[j as int] == (open@[j as int].0@, open@[j as int].1@));
            assert(next.drop_last() =~= prefix);
            assert(next.last() == views[j as int]);
        }
        if open[j].0 == label {
            taken = true;
            proof {
                assert(next[j as int].0 == base);
            }
        } else {
            proof {
                if label_taken(next, base) {
                    let k = choose|k: int| 0 <= k < next.len() && #[trigger] next[k].0 == base;
                    assert(next[k] == prefix[k]);
                }
                if label_taken(prefix, base) {
                    let k = choose|k: int| 0 <= k < prefix.len() && #[trigger] prefix[k].0 == base;
                    assert(next[k] == prefix[k]);
                }
            }
        }
        proof {
            if taken && label_taken(prefix, base) {
                let k = choose|k: int| 0 <= k < prefix.len() && #[trigger] prefix[k].0 == base;
                assert(next[k] == prefix[k]);
            }
        }
        if len > longest {
            longest = len;
        }
        j = j + 1;
    }
    proof {
        assert(views.take(open.len() as int) =~= views);
        lemma_fresh_label_unused(views, base);
        lemma_window_showing(views, url@);
    }
    if taken {
        proof {
            lemma_longest_label(views);
            let k = choose|k: int| 0 <= k < views.len() && #[trigger] views[k].0 == base;
            assert(views[k].0.len() <= longest_label(views));
        }
        let mut n: u128 = base_len as u128;
        proof {
            assert(base + Seq::new(0, |i: int| '-') =~= base);
        }
        while n <= longest as u128
            invariant
                base_len == base.len(),
                base_len <= n <= longest as u128 + 1,
                label@ == base + Seq::new((n - base_len) as nat, |i: int| '-'),
            decreases longest as u128 + 1 - n,
        {
            string_push(&mut label, '-');
            proof {
                assert(label@ =~= base + Seq::new((n + 1 - base_len) as nat, |i: int| '-'));
            }
            n = n + 1;
        }
    }
    PinWindow::Open(label)
}

} // verus!
