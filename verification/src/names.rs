//! File-name rules: which directory entries are plots, and which are strays
//! to be cleared off a destination volume.
//!
//! A name here is a single path component, as a directory listing yields it.
//! Its extension is what follows its final dot, provided that dot is not the
//! first character. A plot is a file whose extension is `plot`; every other
//! file is a stray, whether it has another extension or none.

use vstd::prelude::*;
use vstd::string::*;

verus! {

/// The characters `.plot`.
pub open spec fn plot_suffix() -> Seq<char> {
    seq!['.', 'p', 'l', 'o', 't']
}

/// The name's extension is exactly `plot`: it ends in `.plot` and something
/// stands before that dot.
pub open spec fn is_plot_name(name: Seq<char>) -> bool {
    &&& name.len() > 5
    &&& name.subrange(name.len() - 5, name.len() as int) == plot_suffix()
}

/// The name is not that of a plot: the leftover of an interrupted transfer,
/// or any other file that is no plot.
pub open spec fn is_stray_name(name: Seq<char>) -> bool {
    !is_plot_name(name)
}

/// The plot files among the entries of a directory, in listing order.
pub open spec fn plots_among(entries: Seq<String>) -> Seq<String> {
    entries.filter(|s: String| is_plot_name(s@))
}

/// The entries of a directory that are no plots, in listing order.
pub open spec fn strays_among(entries: Seq<String>) -> Seq<String> {
    entries.filter(|s: String| !is_plot_name(s@))
}

/// A listing parts into its plots and its strays: every entry is one or the
/// other, and no plot is ever among the strays.
pub proof fn lemma_listing_parts(entries: Seq<String>)
    ensures
        plots_among(entries).len() + strays_among(entries).len() == entries.len(),
        forall|k: int|
            0 <= k < strays_among(entries).len() ==> !is_plot_name(
                (#[trigger] strays_among(entries)[k])@,
            ),
        forall|k: int|
            0 <= k < plots_among(entries).len() ==> is_plot_name(
                (#[trigger] plots_among(entries)[k])@,
            ),
    decreases entries.len(),
{
    assert forall|k: int| 0 <= k < strays_among(entries).len() implies !is_plot_name(
        (#[trigger] strays_among(entries)[k])@,
    ) by {
        entries.lemma_filter_pred(|s: String| !is_plot_name(s@), k);
    }
    assert forall|k: int| 0 <= k < plots_among(entries).len() implies is_plot_name(
        (#[trigger] plots_among(entries)[k])@,
    ) by {
        entries.lemma_filter_pred(|s: String| is_plot_name(s@), k);
    }
    if entries.len() > 0 {
        let head = entries.drop_last();
        let last = entries.last();
        lemma_listing_parts(head);
        assert(entries =~= head.push(last));
        head.lemma_filter_push(last, |s: String| is_plot_name(s@));
        head.lemma_filter_push(last, |s: String| !is_plot_name(s@));
    }
}

/// Tells whether `name` is a plot file name.
pub fn is_plot(name: &str) -> (plot: bool)
    ensures
        plot == is_plot_name(name@),
{
    let n: usize = name.unicode_len();
    if n <= 5 {
        return false;
    }
    let ends = name.get_char(n - 5) == '.' && name.get_char(n - 4) == 'p' && name.get_char(n - 3)
        == 'l' && name.get_char(n - 2) == 'o' && name.get_char(n - 1) == 't';
    proof {
        let tail = name@.subrange(n - 5, n as int);
        assert(tail.len() == 5);
        assert(tail[0] == name@[n - 5] && tail[1] == name@[n - 4] && tail[2] == name@[n - 3]
            && tail[3] == name@[n - 2] && tail[4] == name@[n - 1]);
        if ends {
            assert(tail =~= plot_suffix());
        } else {
            assert(tail[0] != plot_suffix()[0] || tail[1] != plot_suffix()[1] || tail[2]
                != plot_suffix()[2] || tail[3] != plot_suffix()[3] || tail[4] != plot_suffix()[4]);
        }
    }
    ends
}

/// Tells whether `name` is a stray: the name of a file that is no plot, such
/// as the temporary file of an interrupted transfer.
pub fn is_stray(name: &str) -> (stray: bool)
    ensures
        stray == is_stray_name(name@),
        stray == !is_plot_name(name@),
{
    !is_plot(name)
}

/// The plot files among the entries of a directory, in listing order.
pub fn scan_plot(entries: &Vec<String>) -> (plots: Vec<String>)
    ensures
        plots@ == plots_among(entries@),
{
    let mut plots: Vec<String> = Vec::new();
    let mut i: usize = 0;
    while i < entries.len()
        invariant
            i <= entries.len(),
            plots@ == entries@.take(i as int).filter(|s: String| is_plot_name(s@)),
        decreases entries.len() - i,
    {
        proof {
            assert(entries@.take(i + 1) =~= entries@.take(i as int).push(entries@[i as int]));
            entries@.take(i as int).lemma_filter_push(
                entries@[i as int],
                |s: String| is_plot_name(s@),
            );
        }
        if is_plot(entries[i].as_str()) {
            plots.push(entries[i].clone());
        }
        i = i + 1;
    }
    assert(entries@.take(entries.len() as int) =~= entries@);
    plots
}

/// The strays among the files of a destination directory, in listing order:
/// every file that is no plot, to be removed before the directory is taken
/// into the inventory. The plots are spared.
pub fn remove_tmp(entries: &Vec<String>) -> (strays: Vec<String>)
    ensures
        strays@ == strays_among(entries@),
{
    let mut strays: Vec<String> = Vec::new();
    let mut i: usize = 0;
    while i < entries.len()
        invariant
            i <= entries.len(),
            strays@ == entries@.take(i as int).filter(|s: String| !is_plot_name(s@)),
        decreases entries.len() - i,
    {
        proof {
            assert(entries@.take(i + 1) =~= entries@.take(i as int).push(entries@[i as int]));
            entries@.take(i as int).lemma_filter_push(
                entries@[i as int],
                |s: String| !is_plot_name(s@),
            );
        }
        if is_stray(entries[i].as_str()) {
            strays.push(entries[i].clone());
        }
        i = i + 1;
    }
    assert(entries@.take(entries.len() as int) =~= entries@);
    strays
}

} // verus!
