use vstd::prelude::*;

verus! {

/// What the main area shows.
#[derive(Debug, Clone, Copy, PartialEq, Eq, Structural)]
pub enum Views {
    RawBuffer,
    SingleBuffer,
    Containers,
    Zoom,
    Remove,
}

/// Pending one-line scroll request, consumed once per render.
#[allow(non_camel_case_types)]
#[derive(Debug, Clone, Copy, PartialEq, Eq, Structural)]
pub enum ScrollDirection {
    UP,
    DOWN,
    NONE,
}

/// How the visible containers share the screen.
#[derive(Debug, Clone, Copy, PartialEq, Eq, Structural)]
pub enum Direction {
    Vertical,
    Horizontal,
}

/// Terminal colours used by panes.
#[derive(Debug, Clone, Copy, PartialEq, Eq, Structural)]
pub enum Color {
    Red,
    Blue,
    Cyan,
    Green,
    Yellow,
    LightYellow,
    Magenta,
    LightMagenta,
    Gray,
    DarkGray,
    White,
    Black,
}

/// Foreground and background of a pane's text.
#[derive(Debug, Clone, Copy, PartialEq, Eq, Structural)]
pub struct Style {
    pub fg: Color,
    pub bg: Color,
}

/// Colour of the container with identifier `id` (1 to 10).
pub open spec fn color_of(id: u8) -> Color {
    if id == 1 {
        Color::Red
    } else if id == 2 {
        Color::Blue
    } else if id == 3 {
        Color::Cyan
    } else if id == 4 {
        Color::Green
    } else if id == 5 {
        Color::Yellow
    } else if id == 6 {
        Color::LightYellow
    } else if id == 7 {
        Color::Magenta
    } else if id == 8 {
        Color::LightMagenta
    } else if id == 9 {
        Color::Gray
    } else {
        Color::DarkGray
    }
}

/// Colour of the container with identifier `id`.
pub fn container_color(id: u8) -> (r: Color)
    ensures
        r == color_of(id),
{
    if id == 1 {
        Color::Red
    } else if id == 2 {
        Color::Blue
    } else if id == 3 {
        Color::Cyan
    } else if id == 4 {
        Color::Green
    } else if id == 5 {
        Color::Yellow
    } else if id == 6 {
        Color::LightYellow
    } else if id == 7 {
        Color::Magenta
    } else if id == 8 {
        Color::LightMagenta
    } else if id == 9 {
        Color::Gray
    } else {
        Color::DarkGray
    }
}

/// Global state of the viewer.
#[derive(Debug, PartialEq, Eq)]
pub struct AppState {
    pub running: bool,
    pub paused: bool,
    pub show: Views,
    pub wrap: bool,
    pub help: bool,
    pub barchart: bool,
    pub show_input: bool,
    pub zoom_id: Option<u8>,
    pub scroll_direction: ScrollDirection,
    pub direction: Direction,
}

impl AppState {
    /// The state a viewer starts in.
    pub open spec fn initial() -> AppState {
        AppState {
            running: false,
            paused: false,
            show: Views::Containers,
            wrap: false,
            help: false,
            barchart: false,
            show_input: false,
            zoom_id: None,
            scroll_direction: ScrollDirection::NONE,
            direction: Direction::Vertical,
        }
    }
}

impl Default for AppState {
    fn default() -> (r: Self)
        ensures
            r == AppState::initial(),
    {
        AppState {
            running: false,
            paused: false,
            wrap: false,
            show: Views::Containers,
            direction: Direction::Vertical,
            help: false,
            barchart: false,
            show_input: false,
            zoom_id: None,
            scroll_direction: ScrollDirection::NONE,
        }
    }
}

impl AppState {
    pub fn hide_show_input(&mut self)
        ensures
            *final(self) == (AppState { show_input: false, ..*old(self) }),
    {
        self.show_input = false;
    }

    pub fn is_running(&self) -> (r: bool)
        ensures
            r == self.running,
    {
        self.running
    }

    pub fn show_input(&self) -> (r: bool)
        ensures
            r == self.show_input,
    {
        self.show_input
    }

    pub fn stop(&mut self)
        ensures
            *final(self) == (AppState { running: false, ..*old(self) }),
    {
        self.running = false;
    }

    pub fn pause(&mut self)
        ensures
            *final(self) == (AppState { paused: true, ..*old(self) }),
    {
        self.paused = true;
    }

    pub fn unpause(&mut self)
        ensures
            *final(self) == (AppState { paused: false, ..*old(self) }),
    {
        self.paused = false;
    }

    pub fn flip_pause(&mut self)
        ensures
            *final(self) == (AppState { paused: !old(self).paused, ..*old(self) }),
    {
        self.paused = !self.paused;
    }

    pub fn flip_wrap(&mut self)
        ensures
            *final(self) == (AppState { wrap: !old(self).wrap, ..*old(self) }),
    {
        self.wrap = !self.wrap;
    }

    pub fn flip_help(&mut self)
        ensures
            *final(self) == (AppState { help: !old(self).help, ..*old(self) }),
    {
        self.help = !self.help;
    }

    pub fn flip_barchart(&mut self)
        ensures
            *final(self) == (AppState { barchart: !old(self).barchart, ..*old(self) }),
    {
        self.barchart = !self.barchart;
    }

    pub fn flip_show_input(&mut self)
        ensures
            *final(self) == (AppState { show_input: !old(self).show_input, ..*old(self) }),
    {
        self.show_input = !self.show_input;
    }

    /// Pauses and asks for one line of upward scrolling.
    pub fn scroll_up(&mut self)
        ensures
            *final(self) == (AppState {
                paused: true,
                scroll_direction: ScrollDirection::UP,
                ..*old(self)
            }),
    {
        self.pause();
        self.scroll_direction = ScrollDirection::UP;
    }

    /// Pauses and asks for one line of downward scrolling.
    pub fn scroll_down(&mut self)
        ensures
            *final(self) == (AppState {
                paused: true,
                scroll_direction: ScrollDirection::DOWN,
                ..*old(self)
            }),
    {
        self.pause();
        self.scroll_direction = ScrollDirection::DOWN;
    }

    pub fn flip_direction(&mut self)
        ensures
            *final(self) == (AppState {
                direction: if old(self).direction == Direction::Vertical {
                    Direction::Horizontal
                } else {
                    Direction::Vertical
                },
                ..*old(self)
            }),
    {
        if self.direction == Direction::Vertical {
            self.direction = Direction::Horizontal;
        } else {
            self.direction = Direction::Vertical;
        }
    }
}

/// Per-pane state.
#[derive(Debug, PartialEq, Eq)]
pub struct ContainerState {
    pub paused: bool,
    pub hide: bool,
    pub wrap: bool,
    pub scroll: u16,
    pub count: u64,
    pub color: Color,
    pub style: Style,
}

impl ContainerState {
    /// The state a pane starts in.
    pub open spec fn initial() -> ContainerState {
        ContainerState {
            paused: false,
            hide: false,
            wrap: false,
            scroll: 0,
            count: 0,
            color: Color::Red,
            style: Style { fg: Color::White, bg: Color::Black },
        }
    }
}

impl Default for ContainerState {
    fn default() -> (r: Self)
        ensures
            r == ContainerState::initial(),
    {
        ContainerState {
            paused: false,
            hide: false,
            wrap: false,
            scroll: 0,
            count: 0,
            color: Color::Red,
            style: Style { fg: Color::White, bg: Color::Black },
        }
    }
}

} // verus!
