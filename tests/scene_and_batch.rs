use infographics::batch::{clamp_parallelism, cpu_info, resolve_parallelism, Batch};
use infographics::color::Rgba;
use infographics::raster::Image;
use infographics::scene::{
    background_canvas, composite_layer, fit_layer, object_kind, output_file_name, plan_layer,
    stretch_layer, Frame, LayerPlan, ObjectKind, SceneObject, MIN_FONT_SIZE,
};
use infographics::template::safe_template_name;
use infographics::text::{fit_font_size, resolve_text, same_text, DataTable};

fn object(kind: ObjectKind, x: i64, y: i64, width: u32, height: u32) -> SceneObject {
    SceneObject {
        kind,
        visible: true,
        x,
        y,
        width,
        height,
        rotated: false,
        alpha_mult: 255,
        content: None,
        key: None,
        font_size: None,
        fill: None,
        source: None,
    }
}

#[test]
fn table_lookup_is_exact() {
    let mut t = DataTable::new();
    t.insert("a/cat.jpg".to_string(), "title".to_string(), "Cats".to_string());
    assert_eq!(t.get("a/cat.jpg", "title"), Some("Cats".to_string()));
    assert_eq!(t.get("a/./cat.jpg", "title"), None);
    assert_eq!(t.get("a/cat.jpg", "Title"), None);
}

#[test]
fn later_table_value_wins() {
    let mut t = DataTable::new();
    t.insert("p".to_string(), "k".to_string(), "old".to_string());
    t.insert("p".to_string(), "other".to_string(), "x".to_string());
    t.insert("p".to_string(), "k".to_string(), "new".to_string());
    assert_eq!(t.get("p", "k"), Some("new".to_string()));
    assert_eq!(t.get("p", "other"), Some("x".to_string()));
}

#[test]
fn text_falls_back_to_content() {
    let mut t = DataTable::new();
    t.insert("p".to_string(), "k".to_string(), "bound".to_string());
    let content = Some("literal".to_string());
    assert_eq!(resolve_text(&t, "p", &Some("k".to_string()), &content), "bound");
    assert_eq!(resolve_text(&t, "q", &Some("k".to_string()), &content), "literal");
    assert_eq!(resolve_text(&t, "p", &None, &content), "literal");
    assert_eq!(resolve_text(&t, "q", &None, &None), "");
}

#[test]
fn same_text_compares_characters() {
    assert!(same_text("héllo", "héllo"));
    assert!(!same_text("hello", "hellO"));
    assert!(!same_text("hell", "hello"));
}

#[test]
fn font_size_unchanged_when_text_fits() {
    let widths: Vec<u64> = (9..=32).rev().map(|s| s * 10).collect();
    assert_eq!(fit_font_size(&widths, 32, MIN_FONT_SIZE, 400), 32);
}

#[test]
fn font_size_shrinks_to_first_fit() {
    let widths: Vec<u64> = (9..=32).rev().map(|s| s * 10).collect();
    assert_eq!(fit_font_size(&widths, 32, MIN_FONT_SIZE, 275), 27);
    assert_eq!(fit_font_size(&widths, 32, MIN_FONT_SIZE, 270), 27);
}

#[test]
fn font_size_bottoms_out_at_minimum() {
    let widths: Vec<u64> = (9..=32).rev().map(|s| s * 10).collect();
    assert_eq!(fit_font_size(&widths, 32, MIN_FONT_SIZE, 50), 8);
    assert_eq!(fit_font_size(&Vec::new(), 6, MIN_FONT_SIZE, 1000), 8);
    assert_eq!(fit_font_size(&Vec::new(), 8, MIN_FONT_SIZE, 0), 8);
}

#[test]
fn kinds_are_named() {
    assert_eq!(object_kind("background"), ObjectKind::Background);
    assert_eq!(object_kind("hero"), ObjectKind::Hero);
    assert_eq!(object_kind("image"), ObjectKind::Image);
    assert_eq!(object_kind("text"), ObjectKind::Text);
    assert_eq!(object_kind("Text"), ObjectKind::Other);
    assert_eq!(object_kind("shape"), ObjectKind::Other);
}

#[test]
fn plans_follow_the_kind() {
    let t = DataTable::new();
    let mut hidden = object(ObjectKind::Hero, 0, 0, 10, 10);
    hidden.visible = false;
    assert!(matches!(plan_layer(&hidden, &t, "p"), LayerPlan::Skip));
    assert!(matches!(plan_layer(&object(ObjectKind::Hero, 0, 0, 1, 1), &t, "p"), LayerPlan::Fit));
    assert!(matches!(plan_layer(&object(ObjectKind::Other, 0, 0, 1, 1), &t, "p"), LayerPlan::Skip));
    assert!(matches!(plan_layer(&object(ObjectKind::Background, 0, 0, 1, 1), &t, "p"), LayerPlan::Skip));
    let mut img = object(ObjectKind::Image, 0, 0, 1, 1);
    img.source = Some("logo.png".to_string());
    match plan_layer(&img, &t, "p") {
        LayerPlan::Stretch { path } => assert_eq!(path, "logo.png"),
        _ => panic!("expected a stretched layer"),
    }
}

#[test]
fn text_plan_resolves_size_and_color() {
    let mut t = DataTable::new();
    t.insert("cat.jpg".to_string(), "title".to_string(), "Cats".to_string());
    let mut txt = object(ObjectKind::Text, 0, 0, 100, 40);
    txt.key = Some("title".to_string());
    match plan_layer(&txt, &t, "cat.jpg") {
        LayerPlan::Text { text, font_size, color } => {
            assert_eq!(text, "Cats");
            assert_eq!(font_size, 32);
            assert_eq!(color, Rgba { r: 0, g: 0, b: 0, a: 255 });
        }
        _ => panic!("expected a text layer"),
    }
    txt.fill = Some("#ff0000".to_string());
    txt.font_size = Some(20);
    match plan_layer(&txt, &t, "cat.jpg") {
        LayerPlan::Text { font_size, color, .. } => {
            assert_eq!(font_size, 20);
            assert_eq!(color, Rgba { r: 255, g: 0, b: 0, a: 255 });
        }
        _ => panic!("expected a text layer"),
    }
    txt.fill = Some("not-a-color".to_string());
    match plan_layer(&txt, &t, "cat.jpg") {
        LayerPlan::Text { color, .. } => assert_eq!(color, Rgba { r: 0, g: 0, b: 0, a: 255 }),
        _ => panic!("expected a text layer"),
    }
    assert!(matches!(plan_layer(&txt, &t, "dog.jpg"), LayerPlan::Skip));
}

#[test]
fn output_name_uses_the_stem() {
    assert_eq!(output_file_name("/photos/cat.jpg"), "cat_infographic.png");
    assert_eq!(output_file_name("archive.tar.gz"), "archive.tar_infographic.png");
    assert_eq!(output_file_name(""), "output_infographic.png");
}

#[test]
fn malformed_background_is_white() {
    let frame = Frame { width: 3, height: 2, background_color: "#12".to_string() };
    let canvas = background_canvas(&frame).unwrap();
    assert_eq!(canvas.get_pixel(2, 1), Rgba { r: 255, g: 255, b: 255, a: 255 });
}

#[test]
fn rotated_layer_is_placed_by_the_box_center() {
    let mut canvas = Image::filled(20, 20, Rgba { r: 255, g: 255, b: 255, a: 255 });
    let mut obj = object(ObjectKind::Image, 4, 4, 6, 2);
    obj.rotated = true;
    let turned = Image::filled(2, 6, Rgba { r: 0, g: 0, b: 0, a: 255 });
    composite_layer(&mut canvas, &turned, &obj);
    // box center (7, 5); buffer origin (7 - 1, 5 - 3)
    assert_eq!(canvas.get_pixel(6, 2), Rgba { r: 0, g: 0, b: 0, a: 255 });
    assert_eq!(canvas.get_pixel(7, 7), Rgba { r: 0, g: 0, b: 0, a: 255 });
    assert_eq!(canvas.get_pixel(5, 2), Rgba { r: 255, g: 255, b: 255, a: 255 });
    assert_eq!(canvas.get_pixel(6, 8), Rgba { r: 255, g: 255, b: 255, a: 255 });
}

#[test]
fn stretch_layer_covers_the_box() {
    let picture = Image::filled(3, 3, Rgba { r: 0, g: 0, b: 250, a: 255 });
    let obj = object(ObjectKind::Background, 0, 0, 5, 4);
    let layer = stretch_layer(&picture, &obj).unwrap();
    assert_eq!((layer.width(), layer.height()), (5, 4));
    assert!(layer.get_pixel(4, 3).b > 200);
}

#[test]
fn parallelism_is_clamped() {
    assert_eq!(clamp_parallelism(Some(0), 8), 1);
    assert_eq!(clamp_parallelism(Some(100), 8), 8);
    assert_eq!(clamp_parallelism(Some(3), 8), 3);
    assert_eq!(clamp_parallelism(None, 8), 4);
    assert_eq!(clamp_parallelism(None, 1), 1);
    assert_eq!(clamp_parallelism(None, 3), 1);
}

#[test]
fn machine_parallelism_is_positive() {
    let info = cpu_info();
    assert!(info.recommended >= 1);
    assert!(info.physical_cores >= 1);
    let p = resolve_parallelism(Some(usize::MAX));
    assert!(p >= 1 && p <= info.logical_cores.max(1));
    assert_eq!(resolve_parallelism(Some(0)), 1);
}

#[test]
fn progress_counts_each_completion_once() {
    let mut batch = Batch::new(3);
    let e1 = batch.record("b.jpg".to_string(), Ok("out/b.png".to_string()));
    let e2 = batch.record("c.jpg".to_string(), Err("Failed to load c.jpg".to_string()));
    assert!(!batch.is_done());
    let e3 = batch.record("a.jpg".to_string(), Ok("out/a.png".to_string()));
    assert_eq!((e1.current, e2.current, e3.current), (1, 2, 3));
    assert_eq!(e3.total, 3);
    assert_eq!(e2.current_file, "c.jpg");
    assert!(batch.is_done());
    assert_eq!(batch.completed(), batch.total());
}

#[test]
fn one_failed_job_does_not_stop_the_others() {
    let mut batch = Batch::new(5);
    for i in 1..=5 {
        let name = format!("img{}.jpg", i);
        let outcome = if i == 3 {
            Err(format!("Failed to load {}: No such file or directory", name))
        } else {
            Ok(format!("out/img{}_infographic.png", i))
        };
        batch.record(name, outcome);
    }
    let report = batch.finish();
    assert_eq!(report.generated_files.len(), 4);
    assert_eq!(report.errors.len(), 1);
    assert!(report.errors[0].contains("img3.jpg"));
    assert!(!report.success);
}

#[test]
fn batch_without_failures_succeeds() {
    let mut batch = Batch::new(1);
    batch.record("a.jpg".to_string(), Ok("a_infographic.png".to_string()));
    let report = batch.finish();
    assert!(report.success);
    assert_eq!(report.generated_files, vec!["a_infographic.png".to_string()]);
}

#[test]
fn renders_hero_and_text_onto_the_frame() {
    let frame = Frame { width: 800, height: 600, background_color: "#ffffff".to_string() };
    let mut table = DataTable::new();
    table.insert("cat.jpg".to_string(), "title".to_string(), "Cats".to_string());
    let hero_obj = object(ObjectKind::Hero, 0, 0, 800, 600);
    let mut text_obj = object(ObjectKind::Text, 20, 500, 300, 60);
    text_obj.key = Some("title".to_string());
    let hero = Image::filled(40, 30, Rgba { r: 200, g: 120, b: 40, a: 255 });

    let mut canvas = background_canvas(&frame).unwrap();
    for obj in [&hero_obj, &text_obj] {
        let layer = match plan_layer(obj, &table, "cat.jpg") {
            LayerPlan::Fit => fit_layer(&hero, obj).unwrap(),
            LayerPlan::Text { text, font_size, color } => {
                assert_eq!(text, "Cats");
                // four glyphs, each as wide as the size
                let widths: Vec<u64> = (MIN_FONT_SIZE + 1..=font_size).rev().map(|s| 4 * s as u64).collect();
                let size = fit_font_size(&widths, font_size, MIN_FONT_SIZE, obj.width);
                assert_eq!(size, 32);
                let mut buf = Image::filled(obj.width, obj.height, Rgba { r: 0, g: 0, b: 0, a: 0 });
                for x in 0..4 * size {
                    for y in 0..size {
                        buf.set_pixel(x, y, color);
                    }
                }
                buf
            }
            _ => panic!("unexpected plan"),
        };
        composite_layer(&mut canvas, &layer, obj);
    }
    assert_eq!(output_file_name("cat.jpg"), "cat_infographic.png");
    assert_eq!((canvas.width(), canvas.height()), (800, 600));
    let white = Rgba { r: 255, g: 255, b: 255, a: 255 };
    assert_ne!(canvas.get_pixel(400, 100), white);
    assert_eq!(canvas.get_pixel(25, 505), Rgba { r: 0, g: 0, b: 0, a: 255 });
}

#[test]
fn template_name_keeps_safe_characters() {
    let kept: String = safe_template_name("My Plan/v2: é-draft_1!").into_iter().collect();
    assert_eq!(kept, "My Planv2 é-draft_1");
    assert!(safe_template_name("../..").is_empty());
}
