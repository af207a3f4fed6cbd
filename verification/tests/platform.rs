use gtmos_kernel::console::Console;
use gtmos_kernel::drivers::framebuffer::{Framebuffer, FramebufferIndex, FramebufferMemory, Pixel};
use gtmos_kernel::graphics::GraphicsAPI;
use gtmos_kernel::platform::{Platform, Registry, SubSystem};
use gtmos_kernel::system::{same_text, Route, X86_64SubSystem};

const WHITE: Pixel = Pixel { b: 0xFF, g: 0xFF, r: 0xFF, channel: 0 };
const TEAL: Pixel = Pixel { b: 0x80, g: 0x80, r: 0, channel: 0 };

/// A subsystem that records what it is asked to write.
struct Recorder {
    name: u32,
    written: Vec<(String, String)>,
    console: Option<Console>,
}

impl Recorder {
    fn named(name: u32) -> Recorder {
        Recorder { name, written: Vec::new(), console: None }
    }
}

impl SubSystem for Recorder {
    fn initialise(&self) {}

    fn halt(&self) {}

    fn write(&mut self, dest: &str, data: &str) {
        self.written.push((dest.to_string(), data.to_string()));
    }

    fn set_console(&mut self, console: Option<Console>) {
        self.console = console;
    }

    fn get_console(&mut self) -> Option<&mut Console> {
        self.console.as_mut()
    }
}

fn console(width: usize, height: usize) -> Console {
    let fb = FramebufferMemory::new(vec![0x11u8; width * height * 4], width, height, 4).unwrap();
    Console::new(GraphicsAPI::new(fb), 1)
}

#[test]
fn an_empty_registry_finds_nothing() {
    let mut registry: Registry<Recorder> = Registry::new();
    assert!(!registry.is_occupied());
    assert!(registry.get_sub_system().is_none());
    assert!(registry.take_sub_system().is_none());
}

#[test]
fn platform_holds_its_subsystem() {
    let platform = Platform::new(Recorder::named(5));
    assert_eq!(platform.sub_system.name, 5);
}

#[test]
fn the_registered_subsystem_is_found() {
    let mut registry = Registry::new();
    registry.set_platform(Platform::new(Recorder::named(1)));
    assert!(registry.is_occupied());
    assert_eq!(registry.get_sub_system().unwrap().name, 1);
}

#[test]
fn a_second_registration_is_ignored() {
    let mut registry = Registry::new();
    registry.set_platform(Platform::new(Recorder::named(1)));
    registry.get_sub_system().unwrap().write("serial", "kept");
    registry.set_platform(Platform::new(Recorder::named(2)));
    let found = registry.get_sub_system().unwrap();
    assert_eq!(found.name, 1);
    assert_eq!(found.written, vec![("serial".to_string(), "kept".to_string())]);
    registry.set_platform(Platform::new(Recorder::named(3)));
    assert_eq!(registry.get_sub_system().unwrap().name, 1);
}

#[test]
fn a_borrowed_subsystem_stays_in_the_slot() {
    let mut registry = Registry::new();
    registry.set_platform(Platform::new(Recorder::named(1)));
    registry.get_sub_system().unwrap().write("serial", "a");
    registry.get_sub_system().unwrap().write("serial", "b");
    assert_eq!(registry.get_sub_system().unwrap().written.len(), 2);
}

#[test]
fn a_taken_subsystem_is_gone_for_good() {
    let mut registry = Registry::new();
    registry.set_platform(Platform::new(Recorder::named(1)));
    let taken = registry.take_sub_system().unwrap();
    assert_eq!(taken.name, 1);
    assert!(!registry.is_occupied());
    assert!(registry.get_sub_system().is_none());
    assert!(registry.take_sub_system().is_none());
    // The registry accepts no second instance, even now.
    registry.set_platform(Platform::new(Recorder::named(2)));
    assert!(registry.get_sub_system().is_none());
}

#[test]
fn same_text_compares_characters() {
    assert!(same_text("serial", "serial"));
    assert!(same_text("", ""));
    assert!(same_text("é✓", "é✓"));
    assert!(!same_text("serial", "serial "));
    assert!(!same_text("serial", "seriaL"));
    assert!(!same_text("serial", ""));
    assert!(!same_text("vga_console", "serial"));
}

#[test]
fn a_new_subsystem_has_no_console() {
    let mut system = X86_64SubSystem::new();
    assert!(system.get_console().is_none());
    assert!(system.take_console().is_none());
}

#[test]
fn serial_writes_are_left_to_the_caller() {
    let mut system = X86_64SubSystem::new();
    assert_eq!(system.write("serial", "hello"), Route::Serial);
    system.set_console(Some(console(16, 8)));
    assert_eq!(system.write("serial", "hello"), Route::Serial);
    let untouched = system.take_console().unwrap();
    assert_eq!(untouched.cursor(), (0, 0));
    assert_eq!(untouched.into_graphics().into_framebuffer().into_buffer(), vec![0x11u8; 16 * 8 * 4]);
}

#[test]
fn console_writes_without_a_console_are_dropped() {
    let mut system = X86_64SubSystem::new();
    assert_eq!(system.write("vga_console", "hello"), Route::Dropped);
    assert!(system.get_console().is_none());
}

#[test]
fn unknown_destinations_are_dropped() {
    let mut system = X86_64SubSystem::new();
    system.set_console(Some(console(16, 8)));
    assert_eq!(system.write("printer", "hello"), Route::Dropped);
    assert_eq!(system.write("", "hello"), Route::Dropped);
    assert_eq!(system.write("Serial", "hello"), Route::Dropped);
    assert_eq!(system.get_console().unwrap().cursor(), (0, 0));
}

#[test]
fn console_writes_are_drawn_in_white_on_teal() {
    let mut system = X86_64SubSystem::new();
    system.set_console(Some(console(32, 16)));
    assert_eq!(system.write("vga_console", "A"), Route::Console);
    let mut expected = console(32, 16);
    expected.write_str("A", WHITE, TEAL);
    let drawn = system.take_console().unwrap();
    assert_eq!(drawn.cursor(), (8, 0));
    let fb = drawn.into_graphics().into_framebuffer();
    // Row 0 of 'A' is 0x0C.
    assert_eq!(Framebuffer::get_pixel(&fb, FramebufferIndex { x: 0, y: 0 }), Some(TEAL));
    assert_eq!(Framebuffer::get_pixel(&fb, FramebufferIndex { x: 2, y: 0 }), Some(WHITE));
    assert_eq!(fb.into_buffer(), expected.into_graphics().into_framebuffer().into_buffer());
}

#[test]
fn set_console_replaces_and_detaches() {
    let mut system = X86_64SubSystem::new();
    system.set_console(Some(console(16, 8)));
    system.get_console().unwrap().set_cursor(3, 4);
    assert_eq!(system.get_console().unwrap().cursor(), (3, 4));
    system.set_console(Some(console(8, 8)));
    assert_eq!(system.get_console().unwrap().cursor(), (0, 0));
    system.set_console(None);
    assert!(system.get_console().is_none());
}

#[test]
fn subsystem_in_a_registry() {
    let mut registry = Registry::new();
    let mut recorder = Recorder::named(7);
    recorder.set_console(Some(console(16, 8)));
    registry.set_platform(Platform::new(recorder));
    let found = registry.get_sub_system().unwrap();
    found.initialise();
    found.get_console().unwrap().write_str("a", WHITE, TEAL);
    assert_eq!(found.get_console().unwrap().cursor(), (8, 0));
    found.set_console(None);
    assert!(registry.get_sub_system().unwrap().get_console().is_none());
    registry.get_sub_system().unwrap().halt();
}

#[test]
fn registry_write_reaches_the_subsystem() {
    let mut registry = Registry::new();
    registry.write("serial", "lost");
    assert!(!registry.is_occupied());
    registry.set_platform(Platform::new(Recorder::named(1)));
    registry.write("serial", "hello");
    registry.write("vga_console", "world");
    assert_eq!(
        registry.get_sub_system().unwrap().written,
        vec![
            ("serial".to_string(), "hello".to_string()),
            ("vga_console".to_string(), "world".to_string())
        ]
    );
    registry.take_sub_system();
    registry.write("serial", "lost");
    assert!(!registry.is_occupied());
}
