use vstd::prelude::*;
use vstd::string::StringExecFns;

use crate::args::{Args, LocalContainer};
use crate::cb::{push_all, push_bounded};
use crate::container::{count_after, scroll_step, Container, RenderedLine, CONTAINERS_MAX, CONTAINER_BUFFER};
use crate::handler::KeyCode;
use crate::input::Input;
use crate::pattern::is_valid_pattern;
use crate::states::{
    color_of, container_color, AppState, ContainerState, Direction, ScrollDirection, Views,
};

verus! {

/// Where the view goes when the container with identifier `id` is asked to
/// be zoomed into: the same target again leaves the zoom, another live
/// target is shown at once, a missing one changes nothing.
pub open spec fn zoom_step(show: Views, zoom_id: Option<u8>, present: bool, id: u8) -> (
    Views,
    Option<u8>,
) {
    if !present {
        (show, zoom_id)
    } else if show == Views::Zoom && zoom_id == Some(id) {
        (Views::Containers, None)
    } else {
        (Views::Zoom, Some(id))
    }
}

/// Zooming into a live container twice in a row returns to the container
/// list with no zoom target; zooming into a live `x` and then into another
/// live `y` shows `y` directly; zooming into a missing container changes
/// nothing.
pub proof fn lemma_zoom_transitions(show: Views, zoom_id: Option<u8>, x: u8, y: u8)
    ensures
        !(show == Views::Zoom && zoom_id == Some(x)) ==> {
            let (s1, z1) = zoom_step(show, zoom_id, true, x);
            zoom_step(s1, z1, true, x) == (Views::Containers, None::<u8>)
        },
        x != y ==> {
            let (s1, z1) = zoom_step(show, zoom_id, true, x);
            !(show == Views::Zoom && zoom_id == Some(x)) ==> zoom_step(s1, z1, true, y) == (
                Views::Zoom,
                Some(y),
            )
        },
        zoom_step(show, zoom_id, false, x) == (show, zoom_id),
{
}

/// Identifiers of the containers, in list order.
pub open spec fn ids_of(cs: Seq<Container>) -> Seq<u8> {
    cs.map_values(|c: Container| c.id)
}

/// Identifiers strictly increase along the list, and each lies in
/// `1..=CONTAINERS_MAX`.
pub open spec fn valid_ids(ids: Seq<u8>) -> bool {
    &&& forall|i: int, j: int| 0 <= i < j < ids.len() ==> ids[i] < ids[j]
    &&& forall|i: int| 0 <= i < ids.len() ==> 1 <= #[trigger] ids[i] <= CONTAINERS_MAX
}


/// What the line source delivered on one tick.
pub enum Received {
    /// A complete line, without its line terminator
    Line(String),
    /// Nothing was waiting
    Empty,
    /// The source has ended
    Disconnected,
}

/// Container `n` is container `o` after `line` was offered to it: a match
/// is kept, split around the match, and counted; otherwise nothing changes.
pub open spec fn routed(o: Container, n: Container, line: Seq<char>) -> bool {
    &&& n.text == o.text
    &&& n.re == o.re
    &&& n.id == o.id
    &&& n.cb.cap() == o.cb.cap()
    &&& match o.classify_spec(line) {
        Some(v) => {
            &&& n.cb@.len() > 0
            &&& n.cb@.last()@ == v
            &&& n.cb@.last().prefix@ + n.cb@.last().matched@ + n.cb@.last().suffix@ == line
            &&& n.cb@ == push_bounded(o.cb@, o.cb.cap(), n.cb@.last())
            &&& n.state == (ContainerState { count: count_after(o.state.count), ..o.state })
        },
        None => n.cb@ == o.cb@ && n.state == o.state,
    }
}

/// The lines kept by the first `k` containers for `line`, in list order.
pub open spec fn matched_lines(
    olds: Seq<Container>,
    news: Seq<Container>,
    line: Seq<char>,
    k: nat,
) -> Seq<RenderedLine>
    decreases k,
{
    if k == 0 {
        Seq::empty()
    } else {
        let prev = matched_lines(olds, news, line, (k - 1) as nat);
        if olds[k - 1].classify_spec(line) is Some {
            prev.push(news[k - 1].cb@.last())
        } else {
            prev
        }
    }
}

/// Identifiers of those of the first `k` containers that match `line`.
pub open spec fn matched_ids(olds: Seq<Container>, line: Seq<char>, k: nat) -> Seq<u8>
    decreases k,
{
    if k == 0 {
        Seq::empty()
    } else {
        let prev = matched_ids(olds, line, (k - 1) as nat);
        if olds[k - 1].classify_spec(line) is Some {
            prev.push(olds[k - 1].id)
        } else {
            prev
        }
    }
}

proof fn lemma_matched_lines_prefix(
    olds: Seq<Container>,
    a: Seq<Container>,
    b: Seq<Container>,
    line: Seq<char>,
    k: nat,
)
    requires
        forall|j: int| 0 <= j < k ==> a[j] == b[j],
    ensures
        matched_lines(olds, a, line, k) == matched_lines(olds, b, line, k),
    decreases k,
{
    if k > 0 {
        lemma_matched_lines_prefix(olds, a, b, line, (k - 1) as nat);
    }
}

/// Pane `n` is pane `o` with `line` appended unhighlighted.
pub open spec fn appended_plain(o: Container, n: Container, line: Seq<char>) -> bool {
    &&& n.cb@.len() > 0
    &&& n.cb@.last()@ == (line, Seq::<char>::empty(), Seq::<char>::empty())
    &&& n.cb@ == push_bounded(o.cb@, o.cb.cap(), n.cb@.last())
    &&& n.cb.cap() == o.cb.cap()
    &&& n.text == o.text
    &&& n.re == o.re
    &&& n.id == o.id
    &&& n.state == o.state
}

/// `n` is `o` after `line` was ingested: the raw pane keeps it, every
/// container is offered it in list order, the aggregate pane keeps what the
/// containers kept, and `ids` names the containers that matched.
pub open spec fn ingested(o: App, n: App, line: Seq<char>, ids: Seq<u8>) -> bool {
    &&& appended_plain(o.raw_buffer, n.raw_buffer, line)
    &&& n.containers@.len() == o.containers@.len()
    &&& forall|i: int|
        0 <= i < o.containers@.len() ==> routed(
            o.containers@[i],
            #[trigger] n.containers@[i],
            line,
        )
    &&& n.single_buffer.cb@ == push_all(
        o.single_buffer.cb@,
        o.single_buffer.cb.cap(),
        matched_lines(o.containers@, n.containers@, line, o.containers@.len()),
    )
    &&& n.single_buffer.cb.cap() == o.single_buffer.cb.cap()
    &&& n.single_buffer.text == o.single_buffer.text
    &&& n.single_buffer.re == o.single_buffer.re
    &&& n.single_buffer.id == o.single_buffer.id
    &&& n.single_buffer.state == o.single_buffer.state
    &&& ids == matched_ids(o.containers@, line, o.containers@.len())
    &&& n.state == o.state
    &&& n.input == o.input
    &&& n.args == o.args
}

/// `n` is `o` after a tick that delivered `event`: see [`App::tick`].
pub open spec fn ticked(o: App, n: App, event: Received, ids: Seq<u8>) -> bool {
    match event {
        Received::Line(line) => if o.state.paused {
            n == o && ids.len() == 0
        } else {
            ingested(o, n, line@, ids)
        },
        Received::Disconnected => {
            &&& n == (App { state: AppState { running: false, ..o.state }, ..o })
            &&& ids.len() == 0
        },
        Received::Empty => {
            &&& n == (App {
                state: AppState {
                    running: if o.args.exit == Some(true) {
                        false
                    } else {
                        o.state.running
                    },
                    ..o.state
                },
                ..o
            })
            &&& ids.len() == 0
        },
    }
}

/// Why a viewer could not be set up.
#[derive(Debug, Clone, Copy, PartialEq, Eq)]
pub enum ConfigError {
    /// A filter's pattern is not a valid regular expression
    InvalidPattern,
    /// More filters than there are container identifiers
    TooManyContainers,
}

/// The smallest identifier from `k` up to `CONTAINERS_MAX - 1` that `ids`
/// does not hold.
pub open spec fn first_free_from(ids: Seq<u8>, k: int) -> Option<u8>
    decreases CONTAINERS_MAX - k,
{
    if k < 1 || k >= CONTAINERS_MAX {
        None
    } else if ids.contains(k as u8) {
        first_free_from(ids, k + 1)
    } else {
        Some(k as u8)
    }
}

/// The identifier a new container gets: the smallest free one.
pub open spec fn first_free(ids: Seq<u8>) -> Option<u8> {
    first_free_from(ids, 1)
}

/// A container freshly made from pattern text `text` under identifier `id`.
pub open spec fn fresh_container(c: Container, text: Seq<char>, id: u8) -> bool {
    &&& c.text@ == text
    &&& c.re matches Some(p) && p.text() == text
    &&& c.cb@ == Seq::<RenderedLine>::empty()
    &&& c.cb.cap() == CONTAINER_BUFFER
    &&& c.id == id
    &&& c.state == (ContainerState { color: color_of(id), ..ContainerState::initial() })
}

proof fn lemma_first_free_range(ids: Seq<u8>, k: int)
    ensures
        first_free_from(ids, k) matches Some(id) ==> 1 <= id < CONTAINERS_MAX && !ids.contains(id),
    decreases CONTAINERS_MAX - k,
{
    if 1 <= k < CONTAINERS_MAX && ids.contains(k as u8) {
        lemma_first_free_range(ids, k + 1);
    }
}

/// The filters configured by `args`.
pub open spec fn configured(args: Option<Args>) -> Seq<LocalContainer> {
    match args {
        Some(a) => a.containers@,
        None => Seq::empty(),
    }
}

/// Position of identifier `id` in `ids`.
pub open spec fn position_of(ids: Seq<u8>, id: u8) -> int {
    choose|i: int| 0 <= i < ids.len() && ids[i] == id
}

/// Effect of one render on the view mode, the zoom target and the
/// identifiers: a pending removal deletes its target and moves on to the
/// container list, or to the raw pane when no container is left.
pub open spec fn removal_step(show: Views, zoom_id: Option<u8>, ids: Seq<u8>) -> (
    Views,
    Option<u8>,
    Seq<u8>,
) {
    if show == Views::Remove && zoom_id is Some {
        let id = zoom_id->0;
        let rest = if ids.contains(id) {
            ids.remove(position_of(ids, id))
        } else {
            ids
        };
        if rest.len() == 0 {
            (Views::RawBuffer, zoom_id, rest)
        } else {
            (Views::Containers, None, rest)
        }
    } else {
        (show, zoom_id, ids)
    }
}

/// Asking to remove a live container `x` and rendering once deletes it and
/// shows the container list (or the raw pane when none is left); rendering
/// again removes nothing more.
pub proof fn lemma_removal_fires_once(show: Views, zoom_id: Option<u8>, ids: Seq<u8>, x: u8)
    requires
        valid_ids(ids),
        ids.contains(x),
    ensures
        ({
            let (s1, z1, ids1) = removal_step(Views::Remove, Some(x), ids);
            &&& !ids1.contains(x)
            &&& ids1.len() == ids.len() - 1
            &&& forall|y: u8| y != x ==> (ids1.contains(y) <==> ids.contains(y))
            &&& s1 == if ids1.len() == 0 {
                Views::RawBuffer
            } else {
                Views::Containers
            }
            &&& ids1.len() > 0 ==> z1 is None
            &&& removal_step(s1, z1, ids1) == (s1, z1, ids1)
        }),
{
    let p = position_of(ids, x);
    assert(0 <= p < ids.len() && ids[p] == x);
    let rest = ids.remove(p);
    assert forall|i: int| 0 <= i < rest.len() implies rest[i] != x by {
        if i < p {
            assert(ids[i] < ids[p]);
        } else {
            assert(ids[p] < ids[i + 1]);
        }
    }
    assert forall|y: u8| y != x implies (rest.contains(y) <==> ids.contains(y)) by {
        if ids.contains(y) {
            let j = choose|j: int| 0 <= j < ids.len() && ids[j] == y;
            if j < p {
                assert(rest[j] == y);
            } else {
                assert(j != p);
                assert(rest[j - 1] == y);
            }
        }
    }
}

/// Relies on ratatui's `Layout::split` with one `Constraint::Ratio(a, b)`
/// per entry of `ratios` over a `width` by `height` area: it returns one
/// area per constraint, each inside the given area, and side by side
/// (horizontal) every area has the full height. Which heights the solver
/// picks when stacking is not promised.
#[verifier::external_body]
fn split_heights(direction: Direction, ratios: &Vec<(u32, u32)>, width: u16, height: u16) -> (r:
    Vec<u16>)
    requires
        forall|i: int| 0 <= i < ratios@.len() ==> #[trigger] ratios@[i].1 > 0,
    ensures
        r@.len() == ratios@.len(),
        forall|i: int| 0 <= i < r@.len() ==> #[trigger] r@[i] <= height,
        direction == Direction::Horizontal ==> forall|i: int|
            0 <= i < r@.len() ==> #[trigger] r@[i] == height,
{
    let dir = match direction {
        Direction::Vertical => ratatui::layout::Direction::Vertical,
        Direction::Horizontal => ratatui::layout::Direction::Horizontal,
    };
    let constraints = ratios.iter().map(|&(a, b)| ratatui::layout::Constraint::Ratio(a, b));
    let area = ratatui::layout::Rect::new(0, 0, width, height);
    let areas = ratatui::layout::Layout::default().direction(dir).constraints(constraints).split(
        area,
    );
    areas.iter().map(|a| a.height).collect()
}

/// `count` equal shares: each entry is the ratio `1 / count`.
fn equal_shares(count: u32) -> (r: Vec<(u32, u32)>)
    ensures
        r@.len() == count,
        forall|i: int| 0 <= i < r@.len() ==> #[trigger] r@[i] == (1u32, count),
{
    let mut r: Vec<(u32, u32)> = Vec::new();
    let mut i: u32 = 0;
    while i < count
        invariant
            i <= count,
            r@.len() == i,
            forall|k: int| 0 <= k < r@.len() ==> #[trigger] r@[k] == (1u32, count),
        decreases count - i,
    {
        r.push((1, count));
        i += 1;
    }
    r
}

/// How many of the first `i` containers are shown.
pub open spec fn visible_before(cs: Seq<Container>, i: int) -> nat
    decreases i,
{
    if i <= 0 {
        0
    } else {
        visible_before(cs, i - 1) + if cs[i - 1].state.hide {
            0nat
        } else {
            1nat
        }
    }
}

proof fn lemma_visible_before_monotone(cs: Seq<Container>, i: int, j: int)
    requires
        i <= j,
    ensures
        visible_before(cs, i) <= visible_before(cs, j),
    decreases j - i,
{
    if i < j {
        lemma_visible_before_monotone(cs, i, j - 1);
    }
}

/// Pane `n` is pane `o` after a render's refresh: it takes the global pause
/// and wrap flags, and its offset is recomputed for `visible` lines.
pub open spec fn refreshed(
    o: Container,
    n: Container,
    paused: bool,
    wrap: bool,
    visible: nat,
    dir: ScrollDirection,
) -> bool {
    &&& n.text == o.text
    &&& n.re == o.re
    &&& n.id == o.id
    &&& n.cb == o.cb
    &&& n.state == (ContainerState {
        paused,
        wrap,
        scroll: scroll_step(o.state.scroll, paused, o.cb@.len(), visible, dir),
        ..o.state
    })
}

proof fn lemma_valid_ids_len(ids: Seq<u8>)
    requires
        valid_ids(ids),
    ensures
        ids.len() <= CONTAINERS_MAX,
{
    assert forall|i: int| 0 <= i < ids.len() implies ids[i] >= i + 1 by {
        lemma_valid_ids_lower(ids, i);
    }
    if ids.len() > 0 {
        assert(ids[ids.len() - 1] >= ids.len());
    }
}

proof fn lemma_valid_ids_lower(ids: Seq<u8>, i: int)
    requires
        valid_ids(ids),
        0 <= i < ids.len(),
    ensures
        ids[i] >= i + 1,
    decreases i,
{
    if i > 0 {
        lemma_valid_ids_lower(ids, i - 1);
        assert(ids[i - 1] < ids[i]);
    }
}

/// `n` is the container list `o` after a filter on `text` was asked for,
/// `r` being the identifier it got: the smallest free identifier, when
/// `text` is a valid pattern and one is free. The new container takes the
/// place that keeps the list ordered.
pub open spec fn container_added(
    o: Seq<Container>,
    n: Seq<Container>,
    text: Seq<char>,
    r: Option<u8>,
) -> bool {
    &&& r is Some <==> first_free(ids_of(o)) is Some && is_valid_pattern(text)
    &&& r is None ==> n == o
    &&& r matches Some(id) ==> {
        &&& first_free(ids_of(o)) == Some(id)
        &&& exists|p: int|
            0 <= p <= o.len() && fresh_container(#[trigger] n[p], text, id) && n == o.insert(
                p,
                n[p],
            )
    }
}

/// `n` is `o` after key `key` was typed into the input box: see
/// [`App::update_input`].
pub open spec fn input_updated(o: App, n: App, key: KeyCode) -> bool {
    match key {
        KeyCode::Enter => if is_valid_pattern(o.input.input@) {
            &&& exists|id: Option<u8>|
                container_added(o.containers@, n.containers@, o.input.input@, id)
            &&& n.input.input@ == Seq::<char>::empty()
            &&& n.state == (AppState { show_input: false, show: Views::Containers, ..o.state })
            &&& n.raw_buffer == o.raw_buffer
            &&& n.single_buffer == o.single_buffer
            &&& n.args == o.args
        } else {
            n == o
        },
        KeyCode::Char(c) => {
            &&& n.input.input@ == o.input.input@.push(c)
            &&& n == (App { input: n.input, ..o })
        },
        KeyCode::Backspace => {
            &&& n.input.input@ == if o.input.input@.len() == 0 {
                o.input.input@
            } else {
                o.input.input@.drop_last()
            }
            &&& n == (App { input: n.input, ..o })
        },
        KeyCode::Esc => n == (App { state: AppState { show_input: false, ..o.state }, ..o }),
        _ => n == o,
    }
}

/// Every pattern of `cs` compiles.
pub open spec fn all_valid(cs: Seq<LocalContainer>) -> bool {
    forall|i: int| 0 <= i < cs.len() ==> is_valid_pattern(#[trigger] cs[i].re@)
}

/// While the viewer is paused, any number of delivered lines changes
/// nothing at all: they are dropped, not queued.
pub proof fn lemma_paused_lines_dropped(apps: Seq<App>, lines: Seq<String>, ids: Seq<Seq<u8>>)
    requires
        apps.len() == lines.len() + 1,
        ids.len() == lines.len(),
        apps[0].state.paused,
        forall|i: int|
            0 <= i < lines.len() ==> ticked(
                #[trigger] apps[i],
                apps[i + 1],
                Received::Line(lines[i]),
                ids[i],
            ),
    ensures
        forall|i: int| 0 <= i < apps.len() ==> #[trigger] apps[i] == apps[0],
        forall|i: int| 0 <= i < ids.len() ==> (#[trigger] ids[i]).len() == 0,
{
    assert forall|i: int| 0 <= i < apps.len() implies #[trigger] apps[i] == apps[0] by {
        lemma_paused_prefix(apps, lines, ids, i);
    }
    assert forall|i: int| 0 <= i < ids.len() implies (#[trigger] ids[i]).len() == 0 by {
        lemma_paused_prefix(apps, lines, ids, i);
        assert(ticked(apps[i], apps[i + 1], Received::Line(lines[i]), ids[i]));
    }
}

proof fn lemma_paused_prefix(apps: Seq<App>, lines: Seq<String>, ids: Seq<Seq<u8>>, k: int)
    requires
        apps.len() == lines.len() + 1,
        ids.len() == lines.len(),
        apps[0].state.paused,
        forall|i: int|
            0 <= i < lines.len() ==> ticked(
                #[trigger] apps[i],
                apps[i + 1],
                Received::Line(lines[i]),
                ids[i],
            ),
        0 <= k < apps.len(),
    ensures
        apps[k] == apps[0],
    decreases k,
{
    if k > 0 {
        lemma_paused_prefix(apps, lines, ids, k - 1);
        assert(ticked(apps[k - 1], apps[k], Received::Line(lines[k - 1]), ids[k - 1]));
    }
}

/// What the items of `s` show: prefix, match and suffix of each.
pub open spec fn lines_of(s: Seq<RenderedLine>) -> Seq<(Seq<char>, Seq<char>, Seq<char>)> {
    s.map_values(|l: RenderedLine| l@)
}

/// `lines` as the raw pane shows them: nothing highlighted.
pub open spec fn plain_lines(lines: Seq<String>) -> Seq<(Seq<char>, Seq<char>, Seq<char>)> {
    lines.map_values(|l: String| (l@, Seq::<char>::empty(), Seq::<char>::empty()))
}

/// What container `c` keeps of `lines`, in order: each match split around
/// it.
pub open spec fn matched_views(c: Container, lines: Seq<String>) -> Seq<
    (Seq<char>, Seq<char>, Seq<char>),
>
    decreases lines.len(),
{
    if lines.len() == 0 {
        Seq::empty()
    } else {
        let prev = matched_views(c, lines.drop_last());
        match c.classify_spec(lines.last()@) {
            Some(v) => prev.push(v),
            None => prev,
        }
    }
}

proof fn lemma_lines_of_push(s: Seq<RenderedLine>, cap: nat, x: RenderedLine)
    ensures
        lines_of(push_bounded(s, cap, x)) == push_bounded(lines_of(s), cap, x@),
{
    assert(lines_of(s.push(x)) =~= lines_of(s).push(x@));
    assert(lines_of(s.push(x).drop_first()) =~= lines_of(s).push(x@).drop_first());
}

proof fn lemma_resumed_prefix(apps: Seq<App>, lines: Seq<String>, ids: Seq<Seq<u8>>, k: int)
    requires
        apps.len() == lines.len() + 1,
        ids.len() == lines.len(),
        !apps[0].state.paused,
        forall|i: int|
            0 <= i < lines.len() ==> ticked(
                #[trigger] apps[i],
                apps[i + 1],
                Received::Line(lines[i]),
                ids[i],
            ),
        0 <= k < apps.len(),
    ensures
        !apps[k].state.paused,
        apps[k].raw_buffer.cb.cap() == apps[0].raw_buffer.cb.cap(),
        lines_of(apps[k].raw_buffer.cb@) == push_all(
            lines_of(apps[0].raw_buffer.cb@),
            apps[0].raw_buffer.cb.cap(),
            plain_lines(lines.subrange(0, k)),
        ),
        apps[k].containers@.len() == apps[0].containers@.len(),
        forall|j: int|
            0 <= j < apps[0].containers@.len() ==> {
                let c0 = apps[0].containers@[j];
                let c = #[trigger] apps[k].containers@[j];
                &&& c.re == c0.re
                &&& c.cb.cap() == c0.cb.cap()
                &&& lines_of(c.cb@) == push_all(
                    lines_of(c0.cb@),
                    c0.cb.cap(),
                    matched_views(c0, lines.subrange(0, k)),
                )
            },
    decreases k,
{
    let cap = apps[0].raw_buffer.cb.cap();
    let r0 = lines_of(apps[0].raw_buffer.cb@);
    if k == 0 {
        assert(plain_lines(lines.subrange(0, 0)) =~= Seq::empty());
    } else {
        lemma_resumed_prefix(apps, lines, ids, k - 1);
        let o = apps[k - 1];
        let n = apps[k];
        assert(ticked(o, n, Received::Line(lines[k - 1]), ids[k - 1]));
        lemma_lines_of_push(o.raw_buffer.cb@, cap, n.raw_buffer.cb@.last());
        let p = plain_lines(lines.subrange(0, k));
        assert(p.drop_last() =~= plain_lines(lines.subrange(0, k - 1)));
        assert(p.last() == (lines[k - 1]@, Seq::<char>::empty(), Seq::<char>::empty()));
        let sub = lines.subrange(0, k);
        assert(sub.drop_last() =~= lines.subrange(0, k - 1));
        assert(sub.last() == lines[k - 1]);
        assert forall|j: int| 0 <= j < apps[0].containers@.len() implies {
            let c0 = apps[0].containers@[j];
            let c = #[trigger] apps[k].containers@[j];
            &&& c.re == c0.re
            &&& c.cb.cap() == c0.cb.cap()
            &&& lines_of(c.cb@) == push_all(
                lines_of(c0.cb@),
                c0.cb.cap(),
                matched_views(c0, sub),
            )
        } by {
            let c0 = apps[0].containers@[j];
            let oc = o.containers@[j];
            let nc = n.containers@[j];
            assert(routed(oc, nc, lines[k - 1]@));
            assert(oc.classify_spec(lines[k - 1]@) == c0.classify_spec(lines[k - 1]@));
            if oc.classify_spec(lines[k - 1]@) is Some {
                lemma_lines_of_push(oc.cb@, oc.cb.cap(), nc.cb@.last());
                let m = matched_views(c0, sub);
                assert(m.drop_last() =~= matched_views(c0, lines.subrange(0, k - 1)));
            }
        }
    }
}

/// Lines delivered while paused are dropped; once resumed, the raw pane is
/// what it was before the pause with just the later lines pushed on, and
/// each container is what it was with just its matches among the later
/// lines pushed on.
pub proof fn lemma_pause_then_resume(
    paused: Seq<App>,
    dropped: Seq<String>,
    ids1: Seq<Seq<u8>>,
    resumed: Seq<App>,
    later: Seq<String>,
    ids2: Seq<Seq<u8>>,
)
    requires
        paused.len() == dropped.len() + 1,
        ids1.len() == dropped.len(),
        paused[0].state.paused,
        forall|i: int|
            0 <= i < dropped.len() ==> ticked(
                #[trigger] paused[i],
                paused[i + 1],
                Received::Line(dropped[i]),
                ids1[i],
            ),
        resumed.len() == later.len() + 1,
        ids2.len() == later.len(),
        resumed[0] == (App {
            state: AppState { paused: false, ..paused.last().state },
            ..paused.last()
        }),
        forall|i: int|
            0 <= i < later.len() ==> ticked(
                #[trigger] resumed[i],
                resumed[i + 1],
                Received::Line(later[i]),
                ids2[i],
            ),
    ensures
        lines_of(resumed.last().raw_buffer.cb@) == push_all(
            lines_of(paused[0].raw_buffer.cb@),
            paused[0].raw_buffer.cb.cap(),
            plain_lines(later),
        ),
        resumed.last().containers@.len() == paused[0].containers@.len(),
        forall|j: int|
            0 <= j < paused[0].containers@.len() ==> lines_of(
                (#[trigger] resumed.last().containers@[j]).cb@,
            ) == push_all(
                lines_of(paused[0].containers@[j].cb@),
                paused[0].containers@[j].cb.cap(),
                matched_views(paused[0].containers@[j], later),
            ),
{
    lemma_paused_lines_dropped(paused, dropped, ids1);
    assert(paused.last() == paused[0]);
    lemma_resumed_prefix(resumed, later, ids2, later.len() as int);
    assert(later.subrange(0, later.len() as int) =~= later);
    assert(resumed[0].containers == paused[0].containers);
}

/// Application.
///
/// This is the main application.
pub struct App {
    pub containers: Vec<Container>,
    pub state: AppState,
    pub input: Input,
    pub raw_buffer: Container,
    pub single_buffer: Container,
    pub args: Args,
}

impl App {
    /// Container identifiers are valid and every pane keeps the same number
    /// of lines.
    pub open spec fn wf(&self) -> bool {
        &&& valid_ids(ids_of(self.containers@))
        &&& forall|i: int|
            0 <= i < self.containers@.len() ==> (#[trigger] self.containers@[i]).cb.cap()
                == CONTAINER_BUFFER
        &&& self.raw_buffer.cb.cap() == CONTAINER_BUFFER
        &&& self.single_buffer.cb.cap() == CONTAINER_BUFFER
        &&& self.raw_buffer.re is None
        &&& self.single_buffer.re is None
    }

    /// Whether a container with identifier `id` exists.
    pub open spec fn has_id(&self, id: u8) -> bool {
        ids_of(self.containers@).contains(id)
    }

    fn find_index(&self, id: u8) -> (r: Option<usize>)
        ensures
            match r {
                Some(i) => {
                    &&& i < self.containers@.len()
                    &&& self.containers@[i as int].id == id
                    &&& self.has_id(id)
                },
                None => !self.has_id(id),
            },
    {
        let mut i: usize = 0;
        while i < self.containers.len()
            invariant
                i <= self.containers@.len(),
                forall|k: int| 0 <= k < i ==> (#[trigger] self.containers@[k]).id != id,
            decreases self.containers@.len() - i,
        {
            if self.containers[i].id == id {
                proof {
                    assert(ids_of(self.containers@)[i as int] == id);
                }
                return Some(i);
            }
            i += 1;
        }
        proof {
            assert forall|k: int| 0 <= k < ids_of(self.containers@).len() implies ids_of(
                self.containers@,
            )[k] != id by {
                assert(self.containers@[k].id != id);
            }
        }
        None
    }

    /// Marks the viewer as running; the line source is started by the
    /// caller.
    pub fn init(&mut self)
        ensures
            *final(self) == (App {
                state: AppState { running: true, ..old(self).state },
                ..*old(self)
            }),
    {
        self.state.running = true;
    }

    pub fn is_running(&self) -> (r: bool)
        ensures
            r == self.state.running,
    {
        self.state.running
    }

    pub fn show_input(&self) -> (r: bool)
        ensures
            r == self.state.show_input,
    {
        self.state.show_input
    }

    pub fn hide_show_input(&mut self)
        ensures
            *final(self) == (App {
                state: AppState { show_input: false, ..old(self).state },
                ..*old(self)
            }),
    {
        self.state.hide_show_input();
    }

    pub fn stop(&mut self)
        ensures
            *final(self) == (App {
                state: AppState { running: false, ..old(self).state },
                ..*old(self)
            }),
    {
        self.state.stop();
    }

    pub fn pause(&mut self)
        ensures
            *final(self) == (App {
                state: AppState { paused: true, ..old(self).state },
                ..*old(self)
            }),
    {
        self.state.pause();
    }

    pub fn unpause(&mut self)
        ensures
            *final(self) == (App {
                state: AppState { paused: false, ..old(self).state },
                ..*old(self)
            }),
    {
        self.state.unpause();
    }

    pub fn flip_pause(&mut self)
        ensures
            *final(self) == (App {
                state: AppState { paused: !old(self).state.paused, ..old(self).state },
                ..*old(self)
            }),
    {
        self.state.flip_pause();
    }

    pub fn flip_wrap(&mut self)
        ensures
            *final(self) == (App {
                state: AppState { wrap: !old(self).state.wrap, ..old(self).state },
                ..*old(self)
            }),
    {
        self.state.flip_wrap();
    }

    pub fn flip_help(&mut self)
        ensures
            *final(self) == (App {
                state: AppState { help: !old(self).state.help, ..old(self).state },
                ..*old(self)
            }),
    {
        self.state.flip_help();
    }

    pub fn flip_barchart(&mut self)
        ensures
            *final(self) == (App {
                state: AppState {
                    barchart: !old(self).state.barchart,
                    ..old(self).state
                },
                ..*old(self)
            }),
    {
        self.state.flip_barchart();
    }

    pub fn flip_show_input(&mut self)
        ensures
            *final(self) == (App {
                state: AppState {
                    show_input: !old(self).state.show_input,
                    ..old(self).state
                },
                ..*old(self)
            }),
    {
        self.state.flip_show_input();
    }

    pub fn scroll_up(&mut self)
        ensures
            *final(self) == (App {
                state: AppState {
                    paused: true,
                    scroll_direction: ScrollDirection::UP,
                    ..old(self).state
                },
                ..*old(self)
            }),
    {
        self.state.scroll_up();
    }

    pub fn scroll_down(&mut self)
        ensures
            *final(self) == (App {
                state: AppState {
                    paused: true,
                    scroll_direction: ScrollDirection::DOWN,
                    ..old(self).state
                },
                ..*old(self)
            }),
    {
        self.state.scroll_down();
    }

    pub fn flip_direction(&mut self)
        ensures
            *final(self) == (App {
                state: AppState {
                    direction: if old(self).state.direction == Direction::Vertical {
                        Direction::Horizontal
                    } else {
                        Direction::Vertical
                    },
                    ..old(self).state
                },
                ..*old(self)
            }),
    {
        self.state.flip_direction();
    }

    /// Zooms into the container `id`, or out of it when it is already the
    /// zoom target; nothing happens when there is no such container.
    pub fn zoom_into(&mut self, id: u8)
        ensures
            (final(self).state.show, final(self).state.zoom_id) == zoom_step(
                old(self).state.show,
                old(self).state.zoom_id,
                old(self).has_id(id),
                id,
            ),
            *final(self) == (App {
                state: AppState {
                    show: final(self).state.show,
                    zoom_id: final(self).state.zoom_id,
                    ..old(self).state
                },
                ..*old(self)
            }),
    {
        if self.find_index(id).is_none() {
            return;
        }
        if self.state.show == Views::Zoom && self.state.zoom_id == Some(id) {
            self.state.show = Views::Containers;
            self.state.zoom_id = None;
        } else {
            self.state.show = Views::Zoom;
            self.state.zoom_id = Some(id);
        }
    }

    /// Asks for the container `id` to be removed on the next render.
    pub fn remove_view(&mut self, id: u8)
        ensures
            *final(self) == if old(self).has_id(id) {
                App {
                    state: AppState { show: Views::Remove, zoom_id: Some(id), ..old(self).state },
                    ..*old(self)
                }
            } else {
                *old(self)
            },
    {
        if self.find_index(id).is_none() {
            return;
        }
        self.state.show = Views::Remove;
        self.state.zoom_id = Some(id);
    }

    pub fn flip_raw_view(&mut self)
        ensures
            *final(self) == (App {
                state: AppState {
                    show: if old(self).containers@.len() == 0 {
                        old(self).state.show
                    } else if old(self).state.show == Views::RawBuffer {
                        Views::Containers
                    } else {
                        Views::RawBuffer
                    },
                    ..old(self).state
                },
                ..*old(self)
            }),
    {
        if self.containers.len() != 0 {
            if self.state.show == Views::RawBuffer {
                self.state.show = Views::Containers;
            } else {
                self.state.show = Views::RawBuffer;
            }
        }
    }

    pub fn flip_single_view(&mut self)
        ensures
            *final(self) == (App {
                state: AppState {
                    show: if old(self).containers@.len() == 0 {
                        old(self).state.show
                    } else if old(self).state.show == Views::SingleBuffer {
                        Views::Containers
                    } else {
                        Views::SingleBuffer
                    },
                    ..old(self).state
                },
                ..*old(self)
            }),
    {
        if self.containers.len() != 0 {
            if self.state.show == Views::SingleBuffer {
                self.state.show = Views::Containers;
            } else {
                self.state.show = Views::SingleBuffer;
            }
        }
    }

    /// Shows or hides the container `id`.
    pub fn hide_view(&mut self, id: u8)
        requires
            old(self).wf(),
        ensures
            final(self).wf(),
            *final(self) == (App { containers: final(self).containers, ..*old(self) }),
            final(self).containers@.len() == old(self).containers@.len(),
            forall|i: int|
                0 <= i < old(self).containers@.len() ==> {
                    let o = old(self).containers@[i];
                    let n = #[trigger] final(self).containers@[i];
                    &&& n.text == o.text
                    &&& n.re == o.re
                    &&& n.id == o.id
                    &&& n.cb == o.cb
                    &&& n.state == (ContainerState {
                        hide: if o.id == id {
                            !o.state.hide
                        } else {
                            o.state.hide
                        },
                        ..o.state
                    })
                },
    {
        match self.find_index(id) {
            Some(i) => {
                let hide = self.containers[i].state.hide;
                self.containers[i].state.hide = !hide;
                proof {
                    assert(ids_of(self.containers@) =~= ids_of(old(self).containers@));
                    assert forall|k: int| 0 <= k < old(self).containers@.len() && k != i implies old(
                        self,
                    ).containers@[k].id != id by {
                        let ids = ids_of(old(self).containers@);
                        assert(ids[k] == old(self).containers@[k].id);
                        assert(ids[i as int] == id);
                    }
                }
            },
            None => {
                proof {
                    assert forall|k: int| 0 <= k < old(self).containers@.len() implies old(
                        self,
                    ).containers@[k].id != id by {
                        assert(ids_of(old(self).containers@)[k] == old(self).containers@[k].id);
                    }
                }
            },
        }
    }

    /// Constructs a new instance of [`App`]: one container per configured
    /// filter, with identifiers 1, 2, ... in order. Fails when a pattern is
    /// invalid or when there are more filters than identifiers.
    pub fn new(args: Option<Args>) -> (r: Result<App, ConfigError>)
        ensures
            ({
                let pats = configured(args);
                &&& r is Ok <==> pats.len() <= CONTAINERS_MAX && all_valid(pats)
                &&& r matches Ok(app) ==> {
                    &&& app.wf()
                    &&& app.containers@.len() == pats.len()
                    &&& forall|i: int|
                        0 <= i < pats.len() ==> fresh_container(
                            #[trigger] app.containers@[i],
                            pats[i].re@,
                            (i + 1) as u8,
                        )
                    &&& app.state == (AppState {
                        show: if pats.len() == 0 {
                            Views::RawBuffer
                        } else if args matches Some(a) && a.single is Some {
                            Views::SingleBuffer
                        } else {
                            Views::Containers
                        },
                        direction: if args matches Some(a) && a.vertical is Some {
                            Direction::Horizontal
                        } else {
                            Direction::Vertical
                        },
                        ..AppState::initial()
                    })
                    &&& app.input.input@ == Seq::<char>::empty()
                    &&& app.raw_buffer.cb@ == Seq::<RenderedLine>::empty()
                    &&& app.single_buffer.cb@ == Seq::<RenderedLine>::empty()
                    &&& app.raw_buffer.state == ContainerState::initial()
                    &&& app.single_buffer.state == ContainerState::initial()
                    &&& args matches Some(a) ==> app.args == a
                }
            }),
    {
        let ghost pats = configured(args);
        let mut state = AppState::default();
        let cfg = match args {
            Some(a) => {
                if a.vertical.is_some() {
                    state.direction = Direction::Horizontal;
                }
                if a.single.is_some() {
                    state.show = Views::SingleBuffer;
                }
                a
            },
            None => Args::default(),
        };
        assert(cfg.containers@ =~= pats);
        let n = cfg.containers.len();
        if n > CONTAINERS_MAX as usize {
            return Err(ConfigError::TooManyContainers);
        }
        let mut containers: Vec<Container> = Vec::new();
        // Let 0 for raw_buffer
        let mut i: usize = 0;
        while i < n
            invariant
                n == cfg.containers@.len(),
                cfg.containers@ == pats,
                pats == configured(args),
                n <= CONTAINERS_MAX,
                i <= n,
                containers@.len() == i,
                forall|k: int|
                    0 <= k < i ==> fresh_container(
                        #[trigger] containers@[k],
                        cfg.containers@[k].re@,
                        (k + 1) as u8,
                    ),
                forall|k: int| 0 <= k < i ==> is_valid_pattern(#[trigger] cfg.containers@[k].re@),
            decreases n - i,
        {
            let id = (i + 1) as u8;
            let made = Container::new(cfg.containers[i].re.clone(), CONTAINER_BUFFER);
            if made.is_err() {
                proof {
                    assert(!is_valid_pattern(pats[i as int].re@));
                    assert(!all_valid(pats));
                }
                return Err(ConfigError::InvalidPattern);
            }
            let mut con = made.unwrap();
            con.state.color = container_color(id);
            con.id = id;
            containers.push(con);
            i += 1;
        }
        if n == 0 {
            state.show = Views::RawBuffer;
        }
        let app = App {
            containers,
            state,
            input: Input::new(),
            raw_buffer: Container::unfiltered(String::from_str(".*"), CONTAINER_BUFFER),
            single_buffer: Container::unfiltered(String::from_str("single"), CONTAINER_BUFFER),
            args: cfg,
        };
        proof {
            let ids = ids_of(app.containers@);
            assert forall|a: int, b: int| 0 <= a < b < ids.len() implies ids[a] < ids[b] by {
                assert(app.containers@[a].id == (a + 1) as u8);
                assert(app.containers@[b].id == (b + 1) as u8);
            }
            assert forall|a: int| 0 <= a < ids.len() implies 1 <= #[trigger] ids[a]
                <= CONTAINERS_MAX by {
                assert(app.containers@[a].id == (a + 1) as u8);
            }
        }
        Ok(app)
    }

    /// The identifier the next container would get, if any is free.
    fn get_free_id(&self) -> (r: Option<u8>)
        ensures
            r == first_free(ids_of(self.containers@)),
    {
        let ghost ids = ids_of(self.containers@);
        let mut k: u8 = 1;
        while k < CONTAINERS_MAX
            invariant
                1 <= k <= CONTAINERS_MAX,
                ids == ids_of(self.containers@),
                first_free(ids) == first_free_from(ids, k as int),
            decreases CONTAINERS_MAX - k,
        {
            if self.find_index(k).is_none() {
                return Some(k);
            }
            k += 1;
        }
        None
    }

    /// Adds a container filtering on `text` under the smallest free
    /// identifier; the list stays ordered by identifier. Nothing is added
    /// when `text` is not a valid pattern or no identifier is free. Returns
    /// the identifier given.
    pub fn add_container(&mut self, text: &str) -> (r: Option<u8>)
        requires
            old(self).wf(),
        ensures
            final(self).wf(),
            container_added(old(self).containers@, final(self).containers@, text@, r),
            r is None ==> *final(self) == *old(self),
            *final(self) == (App { containers: final(self).containers, ..*old(self) }),
    {
        let first_free_id = self.get_free_id();
        let id = match first_free_id {
            Some(id) => id,
            None => {
                return None;
            },
        };
        proof {
            lemma_first_free_range(ids_of(self.containers@), 1);
        }
        let mut con = match Container::new(text.to_owned(), CONTAINER_BUFFER) {
            Ok(c) => c,
            Err(_) => {
                return None;
            },
        };
        con.state.color = container_color(id);
        con.id = id;
        let ghost ids = ids_of(self.containers@);
        let n = self.containers.len();
        let mut p: usize = 0;
        while p < n && self.containers[p].id < id
            invariant
                n == self.containers@.len(),
                ids == ids_of(self.containers@),
                p <= n,
                forall|j: int| 0 <= j < p ==> ids[j] < id,
            decreases n - p,
        {
            p += 1;
        }
        let ghost c = con;
        self.containers.insert(p, con);
        proof {
            let nids = ids_of(self.containers@);
            assert(!ids.contains(id));
            if p < n {
                assert(ids[p as int] != id);
                assert(ids[p as int] > id);
            }
            assert(nids =~= ids.insert(p as int, id));
            assert forall|a: int, b: int| 0 <= a < b < nids.len() implies nids[a] < nids[b] by {
                if b < p {
                } else if a < p && b == p {
                } else if a < p {
                    assert(ids[p as int] > id);
                    assert(ids[a] < ids[b - 1]);
                } else if a == p {
                    assert(ids[b - 1] >= ids[p as int]);
                } else {
                    assert(ids[a - 1] < ids[b - 1]);
                }
            }
            assert(self.containers@[p as int] == c);
        }
        Some(id)
    }

    /// Deletes the container `id`, if there is one; the others keep their
    /// order.
    fn remove_id(&mut self, id: u8)
        requires
            old(self).wf(),
        ensures
            final(self).wf(),
            ids_of(final(self).containers@) == if old(self).has_id(id) {
                ids_of(old(self).containers@).remove(
                    position_of(ids_of(old(self).containers@), id),
                )
            } else {
                ids_of(old(self).containers@)
            },
            final(self).containers@ == if old(self).has_id(id) {
                old(self).containers@.remove(position_of(ids_of(old(self).containers@), id))
            } else {
                old(self).containers@
            },
            *final(self) == (App { containers: final(self).containers, ..*old(self) }),
    {
        let ghost ids = ids_of(self.containers@);
        if let Some(index) = self.find_index(id) {
            proof {
                let p = position_of(ids, id);
                assert(ids[index as int] == id);
                assert(0 <= p < ids.len() && ids[p] == id);
                if p < index {
                    assert(ids[p] < ids[index as int]);
                } else if p > index {
                    assert(ids[index as int] < ids[p]);
                }
            }
            self.containers.remove(index);
            proof {
                assert(ids_of(self.containers@) =~= ids.remove(index as int));
                let nids = ids_of(self.containers@);
                assert forall|a: int, b: int| 0 <= a < b < nids.len() implies nids[a] < nids[b] by {
                    if a < index && b >= index {
                        assert(ids[a] < ids[b + 1]);
                    } else if a >= index {
                        assert(ids[a + 1] < ids[b + 1]);
                    }
                }
            }
        }
    }

    /// The state change a render makes when a removal is pending: the
    /// target is deleted and the view moves on to the container list, or to
    /// the raw pane when none is left.
    pub fn apply_removal(&mut self)
        requires
            old(self).wf(),
        ensures
            final(self).wf(),
            (final(self).state.show, final(self).state.zoom_id, ids_of(final(self).containers@))
                == removal_step(
                old(self).state.show,
                old(self).state.zoom_id,
                ids_of(old(self).containers@),
            ),
            final(self).containers@ == if old(self).state.show == Views::Remove
                && old(self).state.zoom_id is Some && old(self).has_id(
                old(self).state.zoom_id->0,
            ) {
                old(self).containers@.remove(
                    position_of(ids_of(old(self).containers@), old(self).state.zoom_id->0),
                )
            } else {
                old(self).containers@
            },
            *final(self) == (App {
                containers: final(self).containers,
                state: AppState {
                    show: final(self).state.show,
                    zoom_id: final(self).state.zoom_id,
                    ..old(self).state
                },
                ..*old(self)
            }),
    {
        if self.state.show == Views::Remove {
            if let Some(id) = self.state.zoom_id {
                self.remove_id(id);
                if self.containers.len() == 0 {
                    self.state.show = Views::RawBuffer;
                } else {
                    self.state.show = Views::Containers;
                    self.state.zoom_id = None;
                }
            }
        }
    }

    /// Brings every shown pane up to date for a frame of `width` by
    /// `height` cells: panes take the global pause and wrap flags and
    /// recompute their offsets for their share of the frame (the whole
    /// frame when zoomed); the pending scroll request is then consumed.
    /// Returns the heights the layout gave the shown containers, in list
    /// order.
    pub fn update_containers(&mut self, width: u16, height: u16) -> (heights: Vec<u16>)
        requires
            old(self).wf(),
        ensures
            final(self).wf(),
            heights@.len() == visible_before(old(self).containers@, old(self).containers@.len() as int),
            forall|k: int| 0 <= k < heights@.len() ==> #[trigger] heights@[k] <= height,
            old(self).state.direction == Direction::Horizontal ==> forall|k: int|
                0 <= k < heights@.len() ==> #[trigger] heights@[k] == height,
            ({
                let o = *old(self);
                let n = *final(self);
                let p = o.state.paused;
                let w = o.state.wrap;
                let dir = o.state.scroll_direction;
                let cs = o.containers@;
                &&& if o.state.show == Views::RawBuffer {
                    refreshed(o.raw_buffer, n.raw_buffer, p, w, height as nat, dir)
                } else {
                    n.raw_buffer == o.raw_buffer
                }
                &&& if o.state.show == Views::SingleBuffer {
                    refreshed(o.single_buffer, n.single_buffer, p, w, height as nat, dir)
                } else {
                    n.single_buffer == o.single_buffer
                }
                &&& n.containers@.len() == cs.len()
                &&& forall|i: int|
                    0 <= i < cs.len() ==> if cs[i].state.hide {
                        #[trigger] n.containers@[i] == cs[i]
                    } else {
                        refreshed(
                            cs[i],
                            n.containers@[i],
                            p,
                            w,
                            if o.state.show == Views::Zoom {
                                height as nat
                            } else {
                                heights@[visible_before(cs, i) as int] as nat
                            },
                            dir,
                        )
                    }
                &&& n.state == (AppState { scroll_direction: ScrollDirection::NONE, ..o.state })
                &&& n.input == o.input
                &&& n.args == o.args
            }),
    {
        let paused = self.state.paused;
        let wrap = self.state.wrap;
        let dir = self.state.scroll_direction;
        match self.state.show {
            Views::RawBuffer => {
                // Raw buffer
                self.raw_buffer.state.paused = paused;
                self.raw_buffer.state.wrap = wrap;
                self.raw_buffer.update_scroll(height as usize, &dir);
            },
            Views::SingleBuffer => {
                // Single buffer
                self.single_buffer.state.paused = paused;
                self.single_buffer.state.wrap = wrap;
                self.single_buffer.update_scroll(height as usize, &dir);
            },
            _ => {},
        }
        let ghost cs = self.containers@;
        let ghost raw1 = self.raw_buffer;
        let ghost single1 = self.single_buffer;
        proof {
            lemma_valid_ids_len(ids_of(cs));
        }
        let n = self.containers.len();
        let mut shown: u32 = 0;
        let mut i: usize = 0;
        while i < n
            invariant
                n == cs.len(),
                cs == self.containers@,
                n <= CONTAINERS_MAX,
                i <= n,
                shown == visible_before(cs, i as int),
                shown <= i,
            decreases n - i,
        {
            if !self.containers[i].state.hide {
                shown += 1;
            }
            i += 1;
        }
        // Visible containers share the frame equally
        let shares = equal_shares(shown);
        let blocks = split_heights(self.state.direction, &shares, width, height);
        let zoomed = self.state.show == Views::Zoom;
        // General containers
        let mut k: usize = 0;
        let mut i: usize = 0;
        while i < n
            invariant
                n == cs.len(),
                n == self.containers@.len(),
                cs == old(self).containers@,
                i <= n,
                k == visible_before(cs, i as int),
                k <= shown,
                shown == visible_before(cs, n as int),
                blocks@.len() == shown,
                forall|j: int| 0 <= j < blocks@.len() ==> #[trigger] blocks@[j] <= height,
                self.state.direction == Direction::Horizontal ==> forall|j: int|
                    0 <= j < blocks@.len() ==> #[trigger] blocks@[j] == height,
                zoomed == (self.state.show == Views::Zoom),
                self.state == old(self).state,
                self.raw_buffer == raw1,
                self.single_buffer == single1,
                self.input == old(self).input,
                self.args == old(self).args,
                paused == self.state.paused,
                wrap == self.state.wrap,
                dir == self.state.scroll_direction,
                forall|j: int| i <= j < n ==> #[trigger] self.containers@[j] == cs[j],
                forall|j: int|
                    0 <= j < i ==> if cs[j].state.hide {
                        #[trigger] self.containers@[j] == cs[j]
                    } else {
                        refreshed(
                            cs[j],
                            self.containers@[j],
                            paused,
                            wrap,
                            if zoomed {
                                height as nat
                            } else {
                                blocks@[visible_before(cs, j) as int] as nat
                            },
                            dir,
                        )
                    },
            decreases n - i,
        {
            if !self.containers[i].state.hide {
                proof {
                    lemma_visible_before_monotone(cs, i + 1, n as int);
                }
                let area = if zoomed {
                    height
                } else {
                    blocks[k]
                };
                self.containers[i].state.paused = paused;
                self.containers[i].state.wrap = wrap;
                self.containers[i].update_scroll(area as usize, &dir);
                k += 1;
            }
            i += 1;
        }
        proof {
            let nids = ids_of(self.containers@);
            assert(nids =~= ids_of(cs)) by {
                assert forall|j: int| 0 <= j < n implies nids[j] == ids_of(cs)[j] by {
                    assert(self.containers@[j].id == cs[j].id);
                }
            }
            assert forall|j: int| 0 <= j < n implies (
            #[trigger] self.containers@[j]).cb.cap() == CONTAINER_BUFFER by {
                assert(self.containers@[j].cb == cs[j].cb);
            }
        }
        // Reset scroll direction so that scroll is done on each key press
        self.state.scroll_direction = ScrollDirection::NONE;
        blocks
    }

    /// Adds the typed text as a new filter when it is a valid pattern, and
    /// then clears the input box. Returns whether the text was valid.
    pub fn add_input_as_container(&mut self) -> (r: bool)
        requires
            old(self).wf(),
        ensures
            final(self).wf(),
            r == is_valid_pattern(old(self).input.input@),
            !r ==> *final(self) == *old(self),
            r ==> {
                &&& exists|id: Option<u8>|
                    container_added(
                        old(self).containers@,
                        final(self).containers@,
                        old(self).input.input@,
                        id,
                    )
                &&& final(self).input.input@ == Seq::<char>::empty()
                &&& final(self).state == old(self).state
                &&& final(self).raw_buffer == old(self).raw_buffer
                &&& final(self).single_buffer == old(self).single_buffer
                &&& final(self).args == old(self).args
            },
    {
        let is_valid = self.input.is_valid();
        if is_valid {
            let text = self.input.inner_clone();
            let id = self.add_container(text.as_str());
            self.input.reset();
        }
        is_valid
    }

    /// Handles a key while the input box is shown: Enter adds the typed
    /// filter (closing the box and showing the containers when it is
    /// valid), a character is typed, Backspace deletes one, Esc closes the
    /// box.
    pub fn update_input(&mut self, key_code: KeyCode)
        requires
            old(self).wf(),
        ensures
            final(self).wf(),
            input_updated(*old(self), *final(self), key_code),
    {
        match key_code {
            KeyCode::Enter => {
                if self.add_input_as_container() {
                    self.hide_show_input();
                    self.state.show = Views::Containers;
                }
            },
            KeyCode::Char(c) => {
                self.input.push(c);
            },
            KeyCode::Backspace => {
                self.input.pop();
            },
            KeyCode::Esc => {
                self.hide_show_input();
            },
            _ => {},
        }
    }

    /// Routes one line: into the raw pane, into each matching container and
    /// into the aggregate pane. Returns the identifiers of the containers
    /// that matched, in list order.
    pub fn ingest_line(&mut self, line: &str) -> (ids: Vec<u8>)
        requires
            old(self).wf(),
        ensures
            final(self).wf(),
            ingested(*old(self), *final(self), line@, ids@),
    {
        let plain = RenderedLine::plain(line);
        self.raw_buffer.cb.push(plain);
        let ghost olds = self.containers@;
        let ghost single0 = self.single_buffer.cb@;
        let mut ids: Vec<u8> = Vec::new();
        let n = self.containers.len();
        let mut i: usize = 0;
        while i < n
            invariant
                n == olds.len(),
                olds == old(self).containers@,
                forall|k: int| 0 <= k < n ==> (#[trigger] olds[k]).cb.cap() == CONTAINER_BUFFER,
                i <= n,
                self.containers@.len() == n,
                forall|k: int| 0 <= k < i ==> routed(olds[k], #[trigger] self.containers@[k], line@),
                forall|k: int| i <= k < n ==> #[trigger] self.containers@[k] == olds[k],
                self.single_buffer.cb@ == push_all(
                    single0,
                    self.single_buffer.cb.cap(),
                    matched_lines(olds, self.containers@, line@, i as nat),
                ),
                single0 == old(self).single_buffer.cb@,
                self.single_buffer.cb.cap() == old(self).single_buffer.cb.cap(),
                self.single_buffer.text == old(self).single_buffer.text,
                self.single_buffer.re == old(self).single_buffer.re,
                self.single_buffer.id == old(self).single_buffer.id,
                self.single_buffer.state == old(self).single_buffer.state,
                ids@ == matched_ids(olds, line@, i as nat),
                appended_plain(old(self).raw_buffer, self.raw_buffer, line@),
                self.state == old(self).state,
                self.input == old(self).input,
                self.args == old(self).args,
            decreases n - i,
        {
            let ghost before = self.containers@;
            let r = self.containers[i].proc_and_push_line(line);
            proof {
                lemma_matched_lines_prefix(olds, before, self.containers@, line@, i as nat);
            }
            let ghost m0 = matched_lines(olds, self.containers@, line@, i as nat);
            let ghost single_before = self.single_buffer.cb@;
            match r {
                Some(l) => {
                    proof {
                        let o = olds[i as int];
                        let c = self.containers@[i as int];
                        assert(c.cb@ == push_bounded(o.cb@, o.cb.cap(), l));
                        assert(c.cb@.last() == l);
                        assert(routed(o, c, line@));
                    }
                    let id = self.containers[i].id;
                    self.single_buffer.cb.push(l);
                    ids.push(id);
                },
                None => {},
            }
            i += 1;
            proof {
                let m = matched_lines(olds, self.containers@, line@, i as nat);
                if olds[i - 1].classify_spec(line@) is Some {
                    let l = self.containers@[i - 1].cb@.last();
                    assert(m == m0.push(l));
                    assert(m.drop_last() =~= m0);
                    assert(self.single_buffer.cb@ == push_bounded(single_before, self.single_buffer.cb.cap(), l));
                } else {
                    assert(m == m0);
                }
            }
        }
        proof {
            assert(ids_of(self.containers@) =~= ids_of(olds)) by {
                assert forall|k: int| 0 <= k < n implies ids_of(self.containers@)[k] == ids_of(
                    olds,
                )[k] by {
                    assert(routed(olds[k], self.containers@[k], line@));
                }
            }
            assert forall|k: int| 0 <= k < n implies (
            #[trigger] self.containers@[k]).cb.cap() == CONTAINER_BUFFER by {
                assert(routed(olds[k], self.containers@[k], line@));
            }
        }
        ids
    }

    /// Ingests `line` unless the viewer is paused.
    fn take_line(&mut self, line: String) -> (ids: Vec<u8>)
        requires
            old(self).wf(),
        ensures
            final(self).wf(),
            old(self).state.paused ==> *final(self) == *old(self) && ids@.len() == 0,
            !old(self).state.paused ==> ingested(*old(self), *final(self), line@, ids@),
    {
        if self.state.paused {
            return Vec::new();
        }
        self.ingest_line(line.as_str())
    }

    /// Handles one tick of the line source: a line is ingested unless the
    /// viewer is paused (then it is dropped); the end of the source stops
    /// the viewer, and so does an empty tick when asked to exit on empty
    /// input. Returns the identifiers of the containers that matched.
    pub fn tick(&mut self, event: Received) -> (ids: Vec<u8>)
        requires
            old(self).wf(),
        ensures
            final(self).wf(),
            ticked(*old(self), *final(self), event, ids@),
    {
        let ids = match event {
            Received::Line(line) => self.take_line(line),
            Received::Disconnected => {
                self.stop();
                Vec::new()
            },
            Received::Empty => {
                let exit = match self.args.exit {
                    Some(e) => e,
                    None => false,
                };
                if exit {
                    self.stop();
                }
                Vec::new()
            },
        };
        ids
    }

}

impl Default for App {
    /// A viewer with no containers, showing the container list.
    fn default() -> (r: Self)
        ensures
            r.wf(),
            r.containers@.len() == 0,
            r.state == AppState::initial(),
            r.input.input@ == Seq::<char>::empty(),
            r.raw_buffer.cb@ == Seq::<RenderedLine>::empty(),
            r.single_buffer.cb@ == Seq::<RenderedLine>::empty(),
    {
        App {
            containers: Vec::new(),
            state: AppState::default(),
            input: Input::new(),
            raw_buffer: Container::unfiltered(String::from_str(".*"), CONTAINER_BUFFER),
            single_buffer: Container::unfiltered(String::from_str("single"), CONTAINER_BUFFER),
            args: Args::default(),
        }
    }
}

} // verus!
