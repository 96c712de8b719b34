use vstd::prelude::*;
use vstd::string::StringExecFns;

use crate::cb::{push_bounded, CircularBuffer};
use crate::pattern::{first_match, is_valid_pattern, InvalidPattern, Pattern};
use crate::states::{ContainerState, ScrollDirection};

verus! {

/// Lines each pane keeps.
pub const CONTAINER_BUFFER: usize = 1024;

/// Container identifiers are below this bound.
pub const CONTAINERS_MAX: u8 = 10;

/// What `slug::slugify` makes of `s`: lower-case ASCII letters, digits and
/// single dashes.
pub uninterp spec fn slug_of(s: Seq<char>) -> Seq<char>;

/// Relies on `slug::slugify`, whose result depends on the text alone.
#[verifier::external_body]
fn slugify(s: &str) -> (r: String)
    ensures
        r@ == slug_of(s@),
{
    slug::slugify(s)
}

/// A line split for highlighting: the text before the match, the match,
/// and the text after it.
#[derive(Debug, PartialEq, Eq)]
pub struct RenderedLine {
    pub prefix: String,
    pub matched: String,
    pub suffix: String,
}

impl View for RenderedLine {
    type V = (Seq<char>, Seq<char>, Seq<char>);

    open spec fn view(&self) -> (Seq<char>, Seq<char>, Seq<char>) {
        (self.prefix@, self.matched@, self.suffix@)
    }
}

impl Clone for RenderedLine {
    fn clone(&self) -> (r: Self)
        ensures
            r == *self,
    {
        RenderedLine {
            prefix: self.prefix.clone(),
            matched: self.matched.clone(),
            suffix: self.suffix.clone(),
        }
    }
}

/// `line` split around the character range `[start, end)`.
pub open spec fn split_around(line: Seq<char>, start: int, end: int) -> (
    Seq<char>,
    Seq<char>,
    Seq<char>,
) {
    (line.subrange(0, start), line.subrange(start, end), line.subrange(end, line.len() as int))
}

/// What classifying `line` against pattern `p` gives: the line split around
/// the first match, or nothing when there is no match.
pub open spec fn classify(p: Seq<char>, line: Seq<char>) -> Option<
    (Seq<char>, Seq<char>, Seq<char>),
> {
    match first_match(p, line) {
        Some((s, e)) => Some(split_around(line, s, e)),
        None => None,
    }
}

impl RenderedLine {
    /// A line with nothing highlighted.
    pub fn plain(line: &str) -> (r: Self)
        ensures
            r@ == (line@, Seq::<char>::empty(), Seq::<char>::empty()),
    {
        RenderedLine { prefix: line.to_owned(), matched: String::new(), suffix: String::new() }
    }

    /// Splits `line` around the match `span` (character positions), or
    /// gives nothing when there is no match.
    pub fn from_match(line: &str, span: Option<(usize, usize)>) -> (r: Option<Self>)
        requires
            span matches Some((s, e)) ==> s <= e <= line@.len(),
        ensures
            match span {
                Some((s, e)) => r matches Some(l) && l@ == split_around(line@, s as int, e as int),
                None => r is None,
            },
            r matches Some(l) ==> l.prefix@ + l.matched@ + l.suffix@ == line@,
    {
        match span {
            Some((start, end)) => {
                let len = line.unicode_len();
                assert(line@.subrange(0, start as int) + line@.subrange(start as int, end as int)
                    + line@.subrange(end as int, len as int) =~= line@);
                Some(
                    RenderedLine {
                        prefix: line.substring_char(0, start).to_owned(),
                        matched: line.substring_char(start, end).to_owned(),
                        suffix: line.substring_char(end, len).to_owned(),
                    },
                )
            },
            None => None,
        }
    }
}

/// A match count after one more match; it stays at the largest value.
pub open spec fn count_after(count: u64) -> u64 {
    if count < u64::MAX {
        (count + 1) as u64
    } else {
        u64::MAX
    }
}

/// Upper end of the scroll offset of a pane of `visible` lines showing
/// `total` lines, as far as a `u16` offset reaches.
pub open spec fn max_scroll(total: nat, visible: nat) -> int {
    if total - visible > u16::MAX {
        u16::MAX as int
    } else {
        total - visible
    }
}

/// The scroll offset after one recomputation: an unpaused pane follows the
/// newest lines; a paused one moves by at most one line as asked, within
/// `[0, max_scroll]`; a pane whose lines all fit is left alone.
pub open spec fn scroll_step(
    scroll: u16,
    paused: bool,
    total: nat,
    visible: nat,
    dir: ScrollDirection,
) -> u16 {
    if total < visible {
        scroll
    } else if !paused {
        max_scroll(total, visible) as u16
    } else {
        match dir {
            ScrollDirection::UP => if scroll < max_scroll(total, visible) {
                (scroll + 1) as u16
            } else {
                scroll
            },
            ScrollDirection::DOWN => if scroll > 0 {
                (scroll - 1) as u16
            } else {
                scroll
            },
            ScrollDirection::NONE => scroll,
        }
    }
}

/// One regular-expression filter with its own history of matching lines.
pub struct Container {
    /// matching text
    pub text: String,
    /// compiled filter; the raw and aggregate panes have none
    pub re: Option<Pattern>,
    /// circular buffer with matching lines
    pub cb: CircularBuffer<RenderedLine>,
    pub id: u8,
    pub state: ContainerState,
}

impl Container {
    /// A filter on `text`; fails when `text` is not a valid pattern.
    pub fn new(text: String, buffersize: usize) -> (r: Result<Container, InvalidPattern>)
        requires
            buffersize > 0,
        ensures
            r is Ok <==> is_valid_pattern(text@),
            r matches Ok(c) ==> {
                &&& c.text@ == text@
                &&& c.re matches Some(p) && p.text() == text@
                &&& c.cb@ == Seq::<RenderedLine>::empty()
                &&& c.cb.cap() == buffersize
                &&& c.id == 0
                &&& c.state == ContainerState::initial()
            },
    {
        let re = match Pattern::new(text.as_str()) {
            Ok(p) => p,
            Err(e) => {
                return Err(e);
            },
        };
        Ok(
            Container {
                text,
                re: Some(re),
                cb: CircularBuffer::new(buffersize).unwrap(),
                id: 0,
                state: ContainerState::default(),
            },
        )
    }

    /// A pane with title `text` that filters nothing: lines are pushed into
    /// it directly.
    pub fn unfiltered(text: String, buffersize: usize) -> (r: Container)
        requires
            buffersize > 0,
        ensures
            r.text@ == text@,
            r.re is None,
            r.cb@ == Seq::<RenderedLine>::empty(),
            r.cb.cap() == buffersize,
            r.id == 0,
            r.state == ContainerState::initial(),
    {
        Container {
            text,
            re: None,
            cb: CircularBuffer::new(buffersize).unwrap(),
            id: 0,
            state: ContainerState::default(),
        }
    }

    /// What this container makes of `line`.
    pub open spec fn classify_spec(&self, line: Seq<char>) -> Option<
        (Seq<char>, Seq<char>, Seq<char>),
    > {
        match self.re {
            Some(p) => classify(p.text(), line),
            None => None,
        }
    }

    /// Name of the file that mirrors this container under `output_dir`.
    pub open spec fn mirror_name_spec(&self, output_dir: Seq<char>) -> Seq<char> {
        output_dir + seq!['/'] + slug_of(self.text@) + seq!['.', 't', 'x', 't']
    }

    /// Path of the file that mirrors this container's lines:
    /// `<output_dir>/<slug of the pattern>.txt`.
    pub fn mirror_file_name(&self, output_dir: &str) -> (r: String)
        ensures
            r@ == self.mirror_name_spec(output_dir@),
    {
        let mut name = output_dir.to_owned();
        name.append("/");
        let slug = slugify(self.text.as_str());
        name.append(slug.as_str());
        name.append(".txt");
        proof {
            reveal_strlit("/");
            reveal_strlit(".txt");
            assert(name@ =~= self.mirror_name_spec(output_dir@));
        }
        name
    }

    /// Splits `line` around the first match of the pattern, or gives nothing
    /// when it does not match.
    pub fn process_line(&self, line: &str) -> (r: Option<RenderedLine>)
        ensures
            match r {
                Some(l) => self.classify_spec(line@) == Some(l@),
                None => self.classify_spec(line@) is None,
            },
            r matches Some(l) ==> l.prefix@ + l.matched@ + l.suffix@ == line@,
    {
        match &self.re {
            Some(p) => {
                let span = p.find(line);
                RenderedLine::from_match(line, span)
            },
            None => None,
        }
    }

    /// Counts a match and keeps `element` as the newest line.
    pub fn push(&mut self, element: RenderedLine)
        ensures
            final(self).cb@ == push_bounded(old(self).cb@, old(self).cb.cap(), element),
            final(self).cb.cap() == old(self).cb.cap(),
            final(self).state == (ContainerState {
                count: count_after(old(self).state.count),
                ..old(self).state
            }),
            final(self).text == old(self).text,
            final(self).re == old(self).re,
            final(self).id == old(self).id,
    {
        self.state.count = self.state.count.saturating_add(1);
        self.cb.push(element);
    }

    /// Classifies `line` and keeps the result when it matched.
    pub fn proc_and_push_line(&mut self, line: &str) -> (r: Option<RenderedLine>)
        ensures
            match r {
                Some(l) => {
                    &&& old(self).classify_spec(line@) == Some(l@)
                    &&& l.prefix@ + l.matched@ + l.suffix@ == line@
                    &&& final(self).cb@ == push_bounded(old(self).cb@, old(self).cb.cap(), l)
                    &&& final(self).state == (ContainerState {
                        count: count_after(old(self).state.count),
                        ..old(self).state
                    })
                },
                None => {
                    &&& old(self).classify_spec(line@) is None
                    &&& final(self).cb@ == old(self).cb@
                    &&& final(self).state == old(self).state
                },
            },
            final(self).cb.cap() == old(self).cb.cap(),
            final(self).text == old(self).text,
            final(self).re == old(self).re,
            final(self).id == old(self).id,
    {
        let processed_line = self.process_line(line);
        match &processed_line {
            Some(l) => {
                self.push(l.clone());
            },
            None => {},
        }
        processed_line
    }

    /// Recomputes the scroll offset for a pane of `visible_lines` lines.
    pub fn update_scroll(&mut self, visible_lines: usize, scroll: &ScrollDirection)
        ensures
            final(self).state == (ContainerState {
                scroll: scroll_step(
                    old(self).state.scroll,
                    old(self).state.paused,
                    old(self).cb@.len(),
                    visible_lines as nat,
                    *scroll,
                ),
                ..old(self).state
            }),
            final(self).cb == old(self).cb,
            final(self).text == old(self).text,
            final(self).re == old(self).re,
            final(self).id == old(self).id,
    {
        let total_lines = self.cb.len();

        // If we have less lines in the buffer than visible lines then do nothing
        if total_lines < visible_lines {
            return;
        }

        let max_scroll: u16 = if total_lines - visible_lines > u16::MAX as usize {
            u16::MAX
        } else {
            (total_lines - visible_lines) as u16
        };

        if !self.state.paused {
            // This ensures automatic scrolling
            self.state.scroll = max_scroll;
        } else {
            match scroll {
                ScrollDirection::NONE => {},
                ScrollDirection::UP => {
                    if self.state.scroll < max_scroll {
                        self.state.scroll = self.state.scroll + 1;
                    }
                },
                ScrollDirection::DOWN => {
                    if self.state.scroll > 0 {
                        self.state.scroll = self.state.scroll - 1;
                    }
                },
            }
        }
    }

    pub fn get_count(&self) -> (r: u64)
        ensures
            r == self.state.count,
    {
        self.state.count
    }

    /// Forgets the kept lines.
    pub fn reset(&mut self)
        ensures
            final(self).cb@ == Seq::<RenderedLine>::empty(),
            final(self).cb.cap() == old(self).cb.cap(),
            final(self).state == old(self).state,
            final(self).text == old(self).text,
            final(self).re == old(self).re,
            final(self).id == old(self).id,
    {
        self.cb.reset();
    }
}

/// An unpaused pane that holds more lines than it shows is scrolled to its
/// newest lines, `total - visible` when that fits the offset, and
/// recomputing with the same inputs leaves it there.
pub proof fn lemma_autoscroll(scroll: u16, total: nat, visible: nat, dir: ScrollDirection)
    requires
        total > visible,
    ensures
        scroll_step(scroll, false, total, visible, dir) == max_scroll(total, visible),
        total - visible <= u16::MAX ==> scroll_step(scroll, false, total, visible, dir) == total
            - visible,
        scroll_step(scroll_step(scroll, false, total, visible, dir), false, total, visible, dir)
            == scroll_step(scroll, false, total, visible, dir),
{
}

/// The offset of a paused pane after `k` recomputations, each asked to move
/// in direction `dir`.
pub open spec fn scroll_repeat(
    scroll: u16,
    total: nat,
    visible: nat,
    dir: ScrollDirection,
    k: nat,
) -> u16
    decreases k,
{
    if k == 0 {
        scroll
    } else {
        scroll_step(scroll_repeat(scroll, total, visible, dir, (k - 1) as nat), true, total, visible, dir)
    }
}

/// On a paused pane, upward steps stop at `max_scroll` and downward steps
/// stop at 0: after `k` of them the offset is `min(scroll + k, max_scroll)`,
/// respectively `max(scroll - k, 0)`.
pub proof fn lemma_scroll_clamped(scroll: u16, total: nat, visible: nat, k: nat)
    requires
        total >= visible,
        scroll <= max_scroll(total, visible),
    ensures
        scroll_repeat(scroll, total, visible, ScrollDirection::UP, k) == if scroll + k
            < max_scroll(total, visible) {
            scroll + k
        } else {
            max_scroll(total, visible)
        },
        scroll_repeat(scroll, total, visible, ScrollDirection::DOWN, k) == if scroll >= k {
            scroll - k
        } else {
            0
        },
    decreases k,
{
    if k > 0 {
        lemma_scroll_clamped(scroll, total, visible, (k - 1) as nat);
    }
}

} // verus!
