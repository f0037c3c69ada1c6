use vstd::prelude::*;
use vstd::string::StringSliceAdditionalSpecFns;
use crate::menu::Application;
use crate::vga_text::{blank, clear_screen, make_color, spec_make_color, write_at, written_at, TextBuffer, VgaColor, COLOR};

verus! {

pub const HELLO_GREETING: &'static str = "Hello from the Hello World app!";
pub const PRESS_ANY_KEY: &'static str = "Press any key to return to menu...";
pub const INFO_TITLE: &'static str = "System Information";
pub const INFO_OS: &'static str = "OS: Custom Rust OS";
pub const INFO_ARCH: &'static str = "Architecture: x86_64";
pub const INFO_MODE: &'static str = "VGA Mode: 80x25 Text";

/// A blank screen.
pub open spec fn blank_screen() -> Seq<u16> {
    Seq::new(2000, |i: int| blank(COLOR))
}

/// A demo that greets the user.
pub struct HelloWorldApp;

/// A page of facts about the system.
pub struct SystemInfoApp;

impl Application for HelloWorldApp {
    fn name(&self) -> (r: &'static str)
        ensures
            r@ == "Hello World Demo"@,
    {
        "Hello World Demo"
    }
}

impl Application for SystemInfoApp {
    fn name(&self) -> (r: &'static str)
        ensures
            r@ == "System Information"@,
    {
        "System Information"
    }
}

/// The screen the greeting demo shows.
pub open spec fn hello_screen() -> Seq<u16> {
    let c1 = written_at(blank_screen(), 10, 20, HELLO_GREETING.spec_bytes(), spec_make_color(VgaColor::LightCyan, VgaColor::Black));
    written_at(c1, 12, 20, PRESS_ANY_KEY.spec_bytes(), spec_make_color(VgaColor::LightGray, VgaColor::Black))
}

/// The screen the system information page shows.
pub open spec fn info_screen() -> Seq<u16> {
    let white = spec_make_color(VgaColor::White, VgaColor::Black);
    let c1 = written_at(blank_screen(), 2, 5, INFO_TITLE.spec_bytes(), spec_make_color(VgaColor::Yellow, VgaColor::Black));
    let c2 = written_at(c1, 4, 5, INFO_OS.spec_bytes(), white);
    let c3 = written_at(c2, 5, 5, INFO_ARCH.spec_bytes(), white);
    let c4 = written_at(c3, 6, 5, INFO_MODE.spec_bytes(), white);
    written_at(c4, 10, 5, PRESS_ANY_KEY.spec_bytes(), spec_make_color(VgaColor::DarkGray, VgaColor::Black))
}

impl HelloWorldApp {
    /// Clears the screen and shows the greeting and how to leave.
    pub fn draw(&self, screen: &mut TextBuffer)
        requires
            old(screen).wf(),
        ensures
            final(screen).wf(),
            final(screen).cursor() == 0,
            final(screen).cells() == hello_screen(),
    {
        clear_screen(screen);
        assert(screen.cells() =~= blank_screen());
        write_at(screen, 10, 20, HELLO_GREETING, make_color(VgaColor::LightCyan, VgaColor::Black));
        write_at(screen, 12, 20, PRESS_ANY_KEY, make_color(VgaColor::LightGray, VgaColor::Black));
    }
}

impl SystemInfoApp {
    /// Clears the screen and shows the system's name, architecture and video mode.
    pub fn draw(&self, screen: &mut TextBuffer)
        requires
            old(screen).wf(),
        ensures
            final(screen).wf(),
            final(screen).cursor() == 0,
            final(screen).cells() == info_screen(),
    {
        clear_screen(screen);
        assert(screen.cells() =~= blank_screen());
        write_at(screen, 2, 5, INFO_TITLE, make_color(VgaColor::Yellow, VgaColor::Black));
        write_at(screen, 4, 5, INFO_OS, make_color(VgaColor::White, VgaColor::Black));
        write_at(screen, 5, 5, INFO_ARCH, make_color(VgaColor::White, VgaColor::Black));
        write_at(screen, 6, 5, INFO_MODE, make_color(VgaColor::White, VgaColor::Black));
        write_at(screen, 10, 5, PRESS_ANY_KEY, make_color(VgaColor::DarkGray, VgaColor::Black));
    }
}

} // verus!
