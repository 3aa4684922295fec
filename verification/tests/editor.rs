use pxlr::editor::{Command, Editor, EditorAction, Viewport, ViewportBounds, ViewportOptions};

fn viewport(key: &str, left: f32) -> Viewport {
    Viewport {
        key: key.to_string(),
        bounds: ViewportBounds {
            top: 0f32.to_bits(),
            right: (left + 10.).to_bits(),
            bottom: 10f32.to_bits(),
            left: left.to_bits(),
        },
        options: ViewportOptions::Blank,
    }
}

fn keys(e: &Editor) -> Vec<String> {
    e.viewports.iter().map(|v| v.key.clone()).collect()
}

#[test]
fn editor_starts_empty() {
    let e = Editor::init();
    assert_eq!((e.width, e.height), (0, 0));
    assert!(e.viewports.is_empty());
    assert!(!e.has_surface && !e.has_context);
}

#[test]
fn editor_resizes_and_draws_only_with_a_surface() {
    let mut e = Editor::init();
    assert_eq!(e.send_command(Command::Resize { width: 640, height: 480 }), EditorAction::Nothing);
    assert_eq!((e.width, e.height), (640, 480));
    assert_eq!(e.send_command(Command::Draw), EditorAction::Nothing);
    assert_eq!(e.send_command_with_canvas(Command::Init), EditorAction::AttachSurface);
    assert!(e.has_surface && e.has_context);
    assert_eq!(
        e.send_command(Command::Resize { width: 800, height: 600 }),
        EditorAction::ResizeSurface { width: 800, height: 600 }
    );
    assert_eq!(e.send_command(Command::Resize { width: -1, height: 2 }), EditorAction::ResizeSurface {
        width: u32::MAX,
        height: 2
    });
    assert_eq!(e.send_command(Command::Draw), EditorAction::Draw);
    assert_eq!(e.send_command(Command::Ping), EditorAction::Nothing);
}

#[test]
fn editor_keeps_viewports_by_key() {
    let mut e = Editor::init();
    e.send_command(Command::AddViewport { viewport: viewport("a", 0.) });
    e.send_command(Command::AddViewport { viewport: viewport("b", 10.) });
    e.send_command(Command::AddViewport { viewport: viewport("a", 20.) });
    assert_eq!(keys(&e), vec!["a", "b", "a"]);
    e.send_command(Command::UpdateViewport { viewport: viewport("a", 5.) });
    assert_eq!(e.viewports[0].bounds.left, 5f32.to_bits());
    assert_eq!(e.viewports[2].bounds.left, 20f32.to_bits());
    e.send_command(Command::UpdateViewport { viewport: viewport("c", 5.) });
    assert_eq!(keys(&e), vec!["a", "b", "a"]);
    e.send_command(Command::RemoveViewport { key: "a".to_string() });
    assert_eq!(keys(&e), vec!["b"]);
    e.send_command(Command::RemoveViewport { key: "z".to_string() });
    assert_eq!(keys(&e), vec!["b"]);
}
