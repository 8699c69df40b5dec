use rxbms::skin::model::{key_frames, GaugeDesc, ImageDef, KeyFrame, RawCrop, RawKeyFrame};

fn raw() -> RawKeyFrame {
    RawKeyFrame { time: None, x: None, y: None, w: None, h: None, a: None, r: None, g: None, b: None }
}

#[test]
fn key_frames_inherit_previous() {
    let frames = key_frames(&vec![
        RawKeyFrame { x: Some(10), w: Some(300), a: Some(0), ..raw() },
        RawKeyFrame { time: Some(250), a: Some(255), ..raw() },
        RawKeyFrame { time: Some(500), y: Some(-7), ..raw() },
    ]);
    assert_eq!(frames.len(), 3);
    assert_eq!(frames[0], KeyFrame { time: 0, x: 10, y: 0, w: 300, h: 0, a: 0, r: 255, g: 255, b: 255 });
    assert_eq!(frames[1], KeyFrame { time: 250, x: 10, y: 0, w: 300, h: 0, a: 255, r: 255, g: 255, b: 255 });
    assert_eq!(frames[2], KeyFrame { time: 500, x: 10, y: -7, w: 300, h: 0, a: 255, r: 255, g: 255, b: 255 });
    assert!(key_frames(&vec![]).is_empty());
    assert_eq!(KeyFrame::default(), KeyFrame { time: 0, x: 0, y: 0, w: 0, h: 0, a: 255, r: 255, g: 255, b: 255 });
}

#[test]
fn image_defaults() {
    let r = RawCrop { src: None, x: None, y: None, w: None, h: None, divx: None, divy: None, timer: None, cycle: None };
    let img = ImageDef::from_raw(String::from("bg"), r);
    assert_eq!(img.id, "bg");
    assert_eq!(img.src, "");
    assert_eq!((img.x, img.y, img.w, img.h), (0, 0, -1, -1));
    assert_eq!((img.divx, img.divy, img.cycle), (1, 1, 0));
    assert_eq!(img.timer, None);
    let r2 = RawCrop {
        src: Some(String::from("src-notes")),
        x: Some(140),
        y: Some(0),
        w: Some(90),
        h: Some(30),
        divx: Some(1),
        divy: Some(2),
        timer: Some(41),
        cycle: Some(100),
    };
    let img2 = ImageDef::from_raw(String::from("note-w"), r2);
    assert_eq!((img2.x, img2.y, img2.w, img2.h), (140, 0, 90, 30));
    assert_eq!(img2.src, "src-notes");
    assert_eq!((img2.divy, img2.timer, img2.cycle), (2, Some(41), 100));
    let g = GaugeDesc::default();
    assert_eq!(g.parts, 50);
}
