use gt_core::model::{Animation, Storyboard};
use gt_core::render::{
    animation_css_parts, animation_keyframes, asset_file_name, base64_encode, compositing_css,
    decoration_css, font_family_css, html_attr, interpolation_css, map_stretch, map_weight,
    pattern_units, sanitize_id, select_storyboard, size_mode_css, spread, text_alignment_css,
    ticker_keyframes, white_space_css,
};
use gt_core::strmap::StrMap;
use gt_core::ConvertOptions;

fn animation(kind: &str, direction: Option<&str>) -> Animation {
    Animation {
        kind: kind.to_string(),
        object: Some("Box".to_string()),
        duration: None,
        delay: None,
        interpolation: None,
        direction: direction.map(str::to_string),
        reversed: false,
        center_axis: None,
        speed: None,
        muted: false,
        extra_attrs: StrMap::new(),
    }
}

#[test]
fn base64_pads_short_groups() {
    assert_eq!(base64_encode(b""), "");
    assert_eq!(base64_encode(b"f"), "Zg==");
    assert_eq!(base64_encode(b"fo"), "Zm8=");
    assert_eq!(base64_encode(b"foo"), "Zm9v");
    assert_eq!(base64_encode(b"foobar"), "Zm9vYmFy");
    assert_eq!(base64_encode(&[0xFF, 0xFE, 0x3E]), "//4+");
}

#[test]
fn css_keywords_for_designer_settings() {
    assert_eq!(interpolation_css(Some(" Linear "), "Fade"), "linear");
    assert_eq!(interpolation_css(Some("CubicEasingInOut"), "Fade"), "cubic-bezier(0.42,0,0.58,1)");
    assert_eq!(interpolation_css(None, "Fade"), "ease");
    assert_eq!(interpolation_css(Some("CubicEasingIn"), "Fade"), "cubic-bezier(0,0,0.58,1)");
    assert_eq!(interpolation_css(Some("CubicEasingOut"), "Move"), "cubic-bezier(0.42,0,1,1)");
    assert_eq!(size_mode_css(Some("Stretch")), "object-fit:fill;");
    assert_eq!(size_mode_css(None), "object-fit:contain;object-position:center;");
    assert_eq!(size_mode_css(None), size_mode_css(Some("Centered")));
    assert_eq!(size_mode_css(Some("TopRight")), "object-fit:contain;object-position:0 0;");
    assert_eq!(size_mode_css(Some("Centered")), "object-fit:contain;object-position:center;");
    assert_eq!(map_weight("Bold"), "700");
    assert_eq!(map_weight(" Black "), "black");
    assert_eq!(map_stretch("Condensed"), "condensed");
    assert_eq!(spread(Some("Wrap")), "repeat");
    assert_eq!(spread(Some("Clamp")), "pad");
    assert_eq!(spread(None), "reflect");
}

#[test]
fn names_made_safe() {
    assert_eq!(sanitize_id("Rect 1/ü"), "Rect-1--");
    assert_eq!(asset_file_name("folder\\tiny.png", "png"), "folder_tiny.png");
    assert_eq!(asset_file_name("a/b/pic", "jpg"), "pic.jpg");
    assert_eq!(asset_file_name("a/b/.hidden", "png"), ".hidden.png");
    assert_eq!(asset_file_name("", "bin"), ".bin");
    assert_eq!(html_attr("a\"&<"), "a&quot;&amp;&lt;");
}

#[test]
fn keyframes_follow_kind_and_direction() {
    assert_eq!(animation_keyframes(&animation("Reveal", Some(" Right"))), Some("gt-reveal-right"));
    assert_eq!(animation_keyframes(&animation("Wipe", None)), Some("gt-reveal-left"));
    let mut center = animation("Reveal", Some("Center"));
    assert_eq!(animation_keyframes(&center), Some("gt-reveal-center-x"));
    center.center_axis = Some("y".to_string());
    assert_eq!(animation_keyframes(&center), Some("gt-reveal-center-y"));
    assert_eq!(animation_keyframes(&animation("Fly", Some("left"))), Some("gt-fly-left"));
    assert_eq!(animation_keyframes(&animation("Move", None)), Some("gt-fly-bottom"));
    assert_eq!(animation_keyframes(&animation("Bounce", None)), None);
    let mut fade = animation("Fade", None);
    fade.reversed = true;
    let parts = animation_css_parts(&fade, false).unwrap();
    assert_eq!(parts.keyframes, "gt-fade-out");
    assert_eq!(parts.direction, "normal");
    assert_eq!(parts.iterate, "1");
    let mut spin = animation("Spin", None);
    spin.reversed = true;
    let parts = animation_css_parts(&spin, true).unwrap();
    assert_eq!(parts.direction, "reverse");
    assert_eq!(parts.iterate, "infinite");
    assert_eq!(parts.timing, "ease");
}

#[test]
fn storyboard_selected_by_normalised_type() {
    let storyboards = vec![
        Storyboard {
            storyboard_type: Some("TransitionOut".to_string()),
            reversed: false,
            data_name: None,
            animations: Vec::new(),
            extra_attrs: StrMap::new(),
            unknown_children: Vec::new(),
        },
        Storyboard {
            storyboard_type: None,
            reversed: false,
            data_name: None,
            animations: Vec::new(),
            extra_attrs: StrMap::new(),
            unknown_children: Vec::new(),
        },
    ];
    assert_eq!(select_storyboard(&storyboards, &ConvertOptions::default()), Some(1));
    let options = ConvertOptions { embed_assets: false, storyboard: " transitionout ".to_string() };
    assert_eq!(select_storyboard(&storyboards, &options), Some(0));
    let options = ConvertOptions { embed_assets: false, storyboard: "Page1".to_string() };
    assert_eq!(select_storyboard(&storyboards, &options), None);
}

#[test]
fn tickers_scroll_by_direction() {
    assert_eq!(ticker_keyframes(None), "gt-ticker-left");
    assert_eq!(ticker_keyframes(Some(" Right ")), "gt-ticker-right");
    assert_eq!(ticker_keyframes(Some("TOP")), "gt-ticker-top");
    assert_eq!(ticker_keyframes(Some("bottom")), "gt-ticker-bottom");
    assert_eq!(ticker_keyframes(Some("diagonal")), "gt-ticker-left");
}

#[test]
fn compositing_modes_blend() {
    assert_eq!(compositing_css("Additive"), "mix-blend-mode:plus-lighter;");
    assert_eq!(compositing_css(" replace "), "isolation:isolate;mix-blend-mode:normal;");
    assert_eq!(compositing_css("Normal"), "");
}

#[test]
fn text_boxes_align_wrap_and_decorate() {
    assert_eq!(
        text_alignment_css(Some("Center"), Some("Bottom")),
        "justify-content:center;align-items:flex-end;"
    );
    assert_eq!(
        text_alignment_css(Some("Right"), None),
        "justify-content:flex-end;align-items:flex-start;"
    );
    assert_eq!(white_space_css(Some("NoWrap")), "white-space:nowrap;");
    assert_eq!(white_space_css(Some("no-wrap")), "white-space:nowrap;");
    assert_eq!(white_space_css(None), "white-space:pre-wrap;");
    assert_eq!(decoration_css(true, true), "text-decoration:underline line-through;");
    assert_eq!(decoration_css(false, true), "text-decoration:line-through;");
    assert_eq!(decoration_css(false, false), "");
    assert_eq!(font_family_css(Some("Arial \"Bold\"")), "font-family:\"Arial Bold\",sans-serif;");
    assert_eq!(font_family_css(None), "font-family:sans-serif;");
}

#[test]
fn picture_fills_lay_out_by_size_mode() {
    assert_eq!(pattern_units(Some("Tile")), "userSpaceOnUse");
    assert_eq!(pattern_units(Some("original")), "userSpaceOnUse");
    assert_eq!(pattern_units(Some("Stretch")), "objectBoundingBox");
    assert_eq!(pattern_units(None), "objectBoundingBox");
}
