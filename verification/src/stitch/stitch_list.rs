//! The list of analysis results (one per column) that are stitched together.
use crate::text::{before_first, decimal, push_char, push_decimal, trim_str, trimmed};
use vstd::prelude::*;
use vstd::string::*;

verus! {

/// One line of the stitch list: a numbered data file (with its column) or an unnumbered comment.
#[derive(Clone, Debug)]
pub struct StitchSourceItem {
    pub column: Option<u32>,
    pub description: String,
}

/// The csv form of a source item: "col; description", or " ; description" without a column.
pub open spec fn source_csv(column: Option<u32>, description: Seq<char>) -> Seq<char> {
    match column {
        Some(col) => decimal(col as nat) + seq![';', ' '] + description,
        None => seq![' ', ';', ' '] + description,
    }
}

impl StitchSourceItem {
    pub fn new(column: Option<u32>, description: &str) -> (r: Self)
        ensures
            r.column == column,
            r.description@ == description@,
    {
        Self { column, description: description.to_owned() }
    }

    /// The line in ';'-separated csv format.
    pub fn to_csv_string(&self) -> (r: String)
        ensures
            r@ == source_csv(self.column, self.description@),
    {
        let mut r = String::new();
        match self.column {
            Some(col) => {
                push_decimal(&mut r, col as usize);
                push_char(&mut r, ';');
                push_char(&mut r, ' ');
            },
            None => {
                push_char(&mut r, ' ');
                push_char(&mut r, ';');
                push_char(&mut r, ' ');
            },
        }
        r.append(self.description.as_str());
        r
    }
}

/// The lines of a stitch list: numbered data files and unnumbered comments, in file order.
#[derive(Debug)]
pub struct StitchSources(pub Vec<StitchSourceItem>);

/// The number of numbered items in `items`.
pub open spec fn num_numbered(items: Seq<(Option<u32>, Seq<char>)>) -> nat
    decreases items.len(),
{
    if items.len() == 0 {
        0
    } else {
        num_numbered(items.drop_last()) + if items.last().0 is Some { 1nat } else { 0nat }
    }
}

/// Each numbered item carries the number of numbered items before it as its column.
pub open spec fn columns_consecutive(items: Seq<(Option<u32>, Seq<char>)>) -> bool {
    forall|i: int|
        0 <= i < items.len() && (#[trigger] items[i]).0 is Some ==> items[i].0 == Some(
            num_numbered(items.take(i)) as u32,
        )
}

/// The abstract content of a source item: its column and the characters of its description.
pub open spec fn item_view(item: StitchSourceItem) -> (Option<u32>, Seq<char>) {
    (item.column, item.description@)
}

impl StitchSources {
    /// The items as (column, description) pairs.
    pub open spec fn view_items(&self) -> Seq<(Option<u32>, Seq<char>)> {
        Seq::new(self.0@.len(), |i: int| item_view(self.0@[i]))
    }

    /// An empty list.
    pub fn new() -> (r: Self)
        ensures
            r.0@.len() == 0,
    {
        StitchSources(Vec::new())
    }

    /// Add an unnumbered line (a comment line).
    pub fn add_unnumbered(&mut self, description: &str)
        ensures
            final(self).view_items() == old(self).view_items().push((None, description@)),
                {
        self.0.push(StitchSourceItem::new(None, description));
        assert(self.view_items() =~= old(self).view_items().push((None, description@)));
    }

    /// Add a numbered line; its column is the number of numbered lines before it.
    pub fn add_numbered(&mut self, description: &str)
        ensures
            final(self).view_items() == old(self).view_items().push(
                (Some(num_numbered(old(self).view_items()) as u32), description@),
            ),
    {
        let mut count: usize = 0;
        let mut i: usize = 0;
        while i < self.0.len()
            invariant
                i <= self.0.len(),
                count == num_numbered(self.view_items().take(i as int)),
                count <= i,
            decreases self.0.len() - i,
        {
            assert(self.view_items().take(i + 1).drop_last() =~= self.view_items().take(i as int));
            if self.0[i].column.is_some() {
                count = count + 1;
            }
            i = i + 1;
        }
        assert(self.view_items().take(self.0.len() as int) =~= self.view_items());
        let column = count as u32;
        self.0.push(StitchSourceItem::new(Some(column), description));
        assert(self.view_items() =~= old(self).view_items().push(
            (Some(num_numbered(old(self).view_items()) as u32), description@),
        ));
    }

    /// Every line in csv format.
    pub fn csv_output(&self) -> (r: Vec<String>)
        ensures
            r@.len() == self.0@.len(),
            forall|i: int|
                0 <= i < r@.len() ==> #[trigger] r@[i]@ == source_csv(
                    self.0@[i].column,
                    self.0@[i].description@,
                ),
    {
        let mut r: Vec<String> = Vec::new();
        let mut i: usize = 0;
        while i < self.0.len()
            invariant
                i <= self.0.len(),
                r@.len() == i,
                forall|k: int|
                    0 <= k < i ==> #[trigger] r@[k]@ == source_csv(
                        self.0@[k].column,
                        self.0@[k].description@,
                    ),
            decreases self.0.len() - i,
        {
            r.push(self.0[i].to_csv_string());
            i = i + 1;
        }
        r
    }
}

/// The effect of one trimmed line of a stitch-list file on the (sources, paths) pair:
/// empty lines are skipped, '#' lines are comments, '%' lines are numbered columns without data,
/// and other lines are numbered columns whose path is the text before the first '#'
/// (the rest of the line is a comment), trimmed.
pub open spec fn stitch_step(
    st: (Seq<(Option<u32>, Seq<char>)>, Seq<Option<Seq<char>>>),
    l: Seq<char>,
) -> (Seq<(Option<u32>, Seq<char>)>, Seq<Option<Seq<char>>>) {
    if l.len() == 0 {
        st
    } else if l[0] == '#' {
        (st.0.push((None, l)), st.1)
    } else if l[0] == '%' {
        (st.0.push((Some(num_numbered(st.0) as u32), l)), st.1.push(None))
    } else {
        (st.0.push((Some(num_numbered(st.0) as u32), l)), st.1.push(Some(trimmed(before_first(l, '#')))))
    }
}

/// The (sources, paths) pair after reading the raw lines `lines` of a stitch-list file.
pub open spec fn stitch_fold(lines: Seq<Seq<char>>) -> (
    Seq<(Option<u32>, Seq<char>)>,
    Seq<Option<Seq<char>>>,
)
    decreases lines.len(),
{
    if lines.len() == 0 {
        (seq![], seq![])
    } else {
        stitch_step(stitch_fold(lines.drop_last()), trimmed(lines.last()))
    }
}

/// The views of optional strings.
pub open spec fn opt_views(v: Seq<Option<String>>) -> Seq<Option<Seq<char>>> {
    Seq::new(v.len(), |i: int| match v[i] { Some(s) => Some(s@), None => None })
}

/// The parsed content of a stitch-list file: all its lines and a path slot per numbered line.
/// A path is kept as written in the file; `None` is a column without data.
#[derive(Debug)]
pub struct StitchList {
    pub lines: StitchSources,
    pub paths: Vec<Option<String>>,
}

impl StitchList {
    /// The (sources, paths) pair.
    pub open spec fn view_pair(&self) -> (Seq<(Option<u32>, Seq<char>)>, Seq<Option<Seq<char>>>) {
        (self.lines.view_items(), opt_views(self.paths@))
    }

    /// Every numbered line has a path slot, and the numbered lines carry consecutive columns.
    pub open spec fn wf(&self) -> bool {
        &&& self.paths@.len() == num_numbered(self.lines.view_items())
        &&& columns_consecutive(self.lines.view_items())
    }

    /// An empty stitch list.
    pub fn new() -> (r: Self)
        ensures
            r.wf(),
            r.view_pair() == (Seq::<(Option<u32>, Seq<char>)>::empty(), Seq::<Option<Seq<char>>>::empty()),
    {
        let r = StitchList { lines: StitchSources::new(), paths: Vec::new() };
        assert(r.view_pair().0 =~= Seq::<(Option<u32>, Seq<char>)>::empty());
        assert(r.view_pair().1 =~= Seq::<Option<Seq<char>>>::empty());
        r
    }

    /// Process one line that has already been trimmed.
    pub fn add_trimmed_line(&mut self, l: &str)
        requires
            old(self).wf(),
        ensures
            final(self).wf(),
            final(self).view_pair() == stitch_step(old(self).view_pair(), l@),
    {
        let lv = crate::text::chars_of(l);
        if lv.len() == 0 {
            return;
        }
        let ghost items0 = self.lines.view_items();
        let ch = lv[0];
        if ch == '#' {
            self.lines.add_unnumbered(l);
            proof {
                lemma_num_numbered_push(items0, (None, l@));
                lemma_consecutive_push(items0, (None, l@));
            }
        } else {
            self.lines.add_numbered(l);
            let ghost item = (Some(num_numbered(items0) as u32), l@);
            proof {
                lemma_num_numbered_push(items0, item);
                lemma_consecutive_push(items0, item);
            }
            if ch == '%' {
                self.paths.push(None);
            } else {
                let path = crate::text::before_first_exec(l, '#');
                self.paths.push(Some(trim_str(path.as_str())));
            }
        }
        assert(self.view_pair() =~~= stitch_step(old(self).view_pair(), l@));
    }

    /// Parse the raw lines of a stitch-list file.
    pub fn from_lines(lines: &Vec<String>) -> (r: Self)
        ensures
            r.wf(),
            r.view_pair() == stitch_fold(crate::text::views(lines@)),
    {
        let mut r = StitchList::new();
        let mut i: usize = 0;
        while i < lines.len()
            invariant
                i <= lines.len(),
                r.wf(),
                r.view_pair() == stitch_fold(crate::text::views(lines@).take(i as int)),
            decreases lines.len() - i,
        {
            let l = trim_str(lines[i].as_str());
            r.add_trimmed_line(l.as_str());
            assert(crate::text::views(lines@).take(i + 1).drop_last() =~= crate::text::views(
                lines@,
            ).take(i as int));
            i = i + 1;
        }
        assert(crate::text::views(lines@).take(lines.len() as int) =~= crate::text::views(lines@));
        r
    }
}

/// Pushing an item adds one to the count exactly when the item is numbered.
pub proof fn lemma_num_numbered_push(items: Seq<(Option<u32>, Seq<char>)>, x: (Option<u32>, Seq<char>))
    ensures
        num_numbered(items.push(x)) == num_numbered(items) + if x.0 is Some { 1nat } else { 0nat },
{
    assert(items.push(x).drop_last() =~= items);
}

/// Appending a comment, or the next numbered item, keeps the columns consecutive.
pub proof fn lemma_consecutive_push(items: Seq<(Option<u32>, Seq<char>)>, x: (Option<u32>, Seq<char>))
    requires
        columns_consecutive(items),
        x.0 is None || x.0 == Some(num_numbered(items) as u32),
    ensures
        columns_consecutive(items.push(x)),
{
    let s = items.push(x);
    assert forall|i: int| 0 <= i < s.len() && (#[trigger] s[i]).0 is Some implies s[i].0 == Some(
        num_numbered(s.take(i)) as u32,
    ) by {
        if i < items.len() {
            assert(s.take(i) =~= items.take(i));
        } else {
            assert(s.take(i) =~= items);
        }
    }
}

} // verus!
