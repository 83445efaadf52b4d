use gt_core::edit::{add_animation, add_storyboard, delete_animation, set_animation, AnimationPatch};
use gt_core::error::Error;
use gt_core::model::Storyboard;

fn one_storyboard() -> Vec<Storyboard> {
    let mut storyboards = Vec::new();
    assert_eq!(add_storyboard(&mut storyboards, None, None), Ok(0));
    storyboards
}

#[test]
fn new_storyboard_defaults_to_transition_in() {
    let storyboards = one_storyboard();
    assert_eq!(storyboards.len(), 1);
    assert_eq!(storyboards[0].storyboard_type, None);
    assert_eq!(storyboards[0].effective_type(), "TransitionIn");
    assert!(storyboards[0].animations.is_empty());
}

#[test]
fn second_storyboard_of_a_slot_is_refused() {
    let mut storyboards = one_storyboard();
    let again = add_storyboard(&mut storyboards, Some("transitionin".to_string()), None);
    assert!(matches!(again, Err(Error::Invalid(_))));
    assert_eq!(storyboards.len(), 1);
    assert_eq!(
        add_storyboard(&mut storyboards, Some("TransitionIn".to_string()), Some("Title.Text".to_string())),
        Ok(1)
    );
    assert_eq!(storyboards[1].data_name.as_deref(), Some("Title.Text"));
    assert_eq!(add_storyboard(&mut storyboards, Some("TransitionOut".to_string()), None), Ok(2));
    assert_eq!(storyboards[2].storyboard_type.as_deref(), Some("TransitionOut"));
}

#[test]
fn animations_default_by_storyboard_kind() {
    let mut storyboards = one_storyboard();
    assert_eq!(add_animation(&mut storyboards, 0, "Box", None), Ok(0));
    let fade = &storyboards[0].animations[0];
    assert_eq!(fade.kind, "Fade");
    assert_eq!(fade.object.as_deref(), Some("Box"));
    assert_eq!(fade.duration.as_deref(), Some("1"));
    assert_eq!(fade.interpolation.as_deref(), Some("CubicEasingInOut"));
    assert_eq!(fade.speed, None);

    assert_eq!(add_storyboard(&mut storyboards, Some("Continuous".to_string()), None), Ok(1));
    assert_eq!(add_animation(&mut storyboards, 1, "Box", None), Ok(0));
    let spin = &storyboards[1].animations[0];
    assert_eq!(spin.kind, "RotateContinuous");
    assert_eq!(spin.duration, None);
    assert_eq!(spin.interpolation, None);
    assert_eq!(spin.speed.as_deref(), Some("1"));
}

#[test]
fn fourth_counted_animation_is_refused() {
    let mut storyboards = one_storyboard();
    for _ in 0..3 {
        add_animation(&mut storyboards, 0, "Box", Some("Fly")).unwrap();
    }
    assert!(matches!(add_animation(&mut storyboards, 0, "box", Some("Fade")), Err(Error::Invalid(_))));
    assert_eq!(storyboards[0].counted_animations_for("BOX"), 3);
    assert_eq!(add_animation(&mut storyboards, 0, "Other", Some("None")), Ok(3));
    assert!(matches!(add_animation(&mut storyboards, 5, "Box", None), Err(Error::Invalid(_))));
}

#[test]
fn patch_changes_only_given_fields() {
    let mut storyboards = one_storyboard();
    add_animation(&mut storyboards, 0, "Box", None).unwrap();
    let patch = AnimationPatch {
        kind: Some("Reveal".to_string()),
        direction: Some("Right".to_string()),
        reversed: Some(true),
        ..AnimationPatch::default()
    };
    assert_eq!(set_animation(&mut storyboards, 0, 0, patch), Ok(()));
    let a = &storyboards[0].animations[0];
    assert_eq!(a.kind, "Reveal");
    assert_eq!(a.direction.as_deref(), Some("Right"));
    assert!(a.reversed);
    assert_eq!(a.duration.as_deref(), Some("1"));
    assert_eq!(a.object.as_deref(), Some("Box"));
    assert!(matches!(
        set_animation(&mut storyboards, 0, 9, AnimationPatch::default()),
        Err(Error::Invalid(_))
    ));
}

#[test]
fn moving_to_a_full_object_is_refused() {
    let mut storyboards = one_storyboard();
    for _ in 0..3 {
        add_animation(&mut storyboards, 0, "Full", None).unwrap();
    }
    add_animation(&mut storyboards, 0, "Other", None).unwrap();
    let patch = AnimationPatch { object: Some("Full".to_string()), ..AnimationPatch::default() };
    assert!(matches!(set_animation(&mut storyboards, 0, 3, patch), Err(Error::Invalid(_))));
    assert_eq!(storyboards[0].animations[3].object.as_deref(), Some("Other"));
}

#[test]
fn delete_undoes_add() {
    let mut storyboards = one_storyboard();
    add_animation(&mut storyboards, 0, "A", None).unwrap();
    let before = storyboards[0].animations.len();
    let index = add_animation(&mut storyboards, 0, "B", Some("Scale")).unwrap();
    let removed = delete_animation(&mut storyboards, 0, index).unwrap();
    assert_eq!(removed.kind, "Scale");
    assert_eq!(storyboards[0].animations.len(), before);
    assert_eq!(storyboards[0].animations[0].object.as_deref(), Some("A"));
    assert!(matches!(delete_animation(&mut storyboards, 0, 7), Err(Error::Invalid(_))));
    assert!(matches!(delete_animation(&mut storyboards, 3, 0), Err(Error::Invalid(_))));
}
