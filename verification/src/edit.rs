//! Adding, changing and removing storyboards and animations, keeping at most
//! three counted animations per object in each storyboard.
use vstd::prelude::*;

use crate::error::Error;
use crate::model::{
    count_for, counts_for, effective_type_of, is_continuous_kind, is_placeholder_kind, Animation,
    Storyboard, UnknownNode, MAX_ANIMATIONS_PER_OBJECT,
};
use crate::strmap::StrMap;
use crate::text::{eq_ignore_ascii_case, lower_seq, owned, same_ignoring_case, str_eq};

verus! {

/// A change to some fields of an animation; `None` leaves a field as it is.
#[derive(Debug, Clone)]
pub struct AnimationPatch {
    pub kind: Option<String>,
    pub object: Option<String>,
    pub delay: Option<String>,
    pub duration: Option<String>,
    pub interpolation: Option<String>,
    pub direction: Option<String>,
    pub reversed: Option<bool>,
    pub center_axis: Option<String>,
    pub speed: Option<String>,
    pub muted: Option<bool>,
}

impl Default for AnimationPatch {
    fn default() -> (p: AnimationPatch)
        ensures
            p.kind.is_none() && p.object.is_none() && p.delay.is_none() && p.duration.is_none()
                && p.interpolation.is_none() && p.direction.is_none() && p.reversed.is_none()
                && p.center_axis.is_none() && p.speed.is_none() && p.muted.is_none(),
    {
        AnimationPatch {
            kind: None,
            object: None,
            delay: None,
            duration: None,
            interpolation: None,
            direction: None,
            reversed: None,
            center_axis: None,
            speed: None,
            muted: None,
        }
    }
}

pub open spec fn or_keep<T>(new: Option<T>, old: T) -> T {
    match new {
        Some(v) => v,
        None => old,
    }
}

pub open spec fn or_keep_some<T>(new: Option<T>, old: Option<T>) -> Option<T> {
    match new {
        Some(v) => Some(v),
        None => old,
    }
}

/// An animation with the given fields of a patch replaced.
pub open spec fn patched(a: Animation, p: AnimationPatch) -> Animation {
    Animation {
        kind: or_keep(p.kind, a.kind),
        object: or_keep_some(p.object, a.object),
        duration: or_keep_some(p.duration, a.duration),
        delay: or_keep_some(p.delay, a.delay),
        interpolation: or_keep_some(p.interpolation, a.interpolation),
        direction: or_keep_some(p.direction, a.direction),
        reversed: or_keep(p.reversed, a.reversed),
        center_axis: or_keep_some(p.center_axis, a.center_axis),
        speed: or_keep_some(p.speed, a.speed),
        muted: or_keep(p.muted, a.muted),
        extra_attrs: a.extra_attrs,
    }
}

/// A patch that sets the object name to the empty string.
pub open spec fn empty_object_patch(p: AnimationPatch) -> bool {
    p.object matches Some(o) && o@.len() == 0
}

pub open spec fn text_or_empty(t: Option<String>) -> Seq<char> {
    match t {
        Some(s) => s@,
        None => Seq::empty(),
    }
}

/// The storyboard type asked for, `TransitionIn` when none is given.
pub open spec fn type_or_default(t: Option<String>) -> Seq<char> {
    match t {
        Some(s) => s@,
        None => "TransitionIn"@,
    }
}

/// Storyboards are told apart by type (ignoring ASCII case) and data name.
pub open spec fn same_slot(sb: Storyboard, ty: Seq<char>, data: Seq<char>) -> bool {
    same_ignoring_case(effective_type_of(sb.storyboard_type), ty) && text_or_empty(sb.data_name)
        == data
}

/// No two storyboards share a type and data name.
pub open spec fn slots_distinct(s: Seq<Storyboard>) -> bool {
    forall|i: int, j: int|
        0 <= i < j < s.len() ==> !same_slot(
            #[trigger] s[j],
            effective_type_of((#[trigger] s[i]).storyboard_type),
            text_or_empty(s[i].data_name),
        )
}

/// Each object has at most three counted animations.
pub open spec fn within_limit(anims: Seq<Animation>) -> bool {
    forall|o: Seq<char>| #[trigger] count_for(anims, o) <= MAX_ANIMATIONS_PER_OBJECT
}

/// A storyboard as `add_storyboard` makes it.
pub open spec fn is_new_storyboard(sb: Storyboard, ty: Seq<char>, data: Seq<char>) -> bool {
    &&& if same_ignoring_case(ty, "TransitionIn"@) {
        sb.storyboard_type.is_none()
    } else {
        sb.storyboard_type matches Some(t) && t@ == ty
    }
    &&& !sb.reversed
    &&& if data.len() == 0 {
        sb.data_name.is_none()
    } else {
        sb.data_name matches Some(d) && d@ == data
    }
    &&& sb.animations@.len() == 0
    &&& sb.extra_attrs@ == Map::<Seq<char>, String>::empty()
    &&& sb.unknown_children@.len() == 0
}

/// The kind `add_animation` uses when none is given.
pub open spec fn default_kind(kind: Option<Seq<char>>, continuous: bool) -> Seq<char> {
    match kind {
        Some(k) => k,
        None => if continuous {
            "RotateContinuous"@
        } else {
            "Fade"@
        },
    }
}

/// An animation as `add_animation` makes it.
pub open spec fn is_new_animation(
    a: Animation,
    object: Seq<char>,
    kind: Option<Seq<char>>,
    continuous: bool,
) -> bool {
    let k = default_kind(kind, continuous);
    &&& a.kind@ == k
    &&& a.object matches Some(o) && o@ == object
    &&& if is_continuous_kind(k) {
        a.duration.is_none()
    } else {
        a.duration matches Some(d) && d@ == "1"@
    }
    &&& a.delay.is_none()
    &&& if continuous {
        a.interpolation.is_none()
    } else {
        a.interpolation matches Some(i) && i@ == "CubicEasingInOut"@
    }
    &&& a.direction.is_none()
    &&& !a.reversed
    &&& a.center_axis.is_none()
    &&& if continuous {
        a.speed matches Some(s) && s@ == "1"@
    } else {
        a.speed.is_none()
    }
    &&& !a.muted
    &&& a.extra_attrs@ == Map::<Seq<char>, String>::empty()
}

/// The storyboard with its animation list replaced, all else kept.
pub open spec fn with_animations(sb: Storyboard, anims: Seq<Animation>, new_sb: Storyboard) -> bool {
    &&& new_sb.storyboard_type == sb.storyboard_type
    &&& new_sb.reversed == sb.reversed
    &&& new_sb.data_name == sb.data_name
    &&& new_sb.animations@ == anims
    &&& new_sb.extra_attrs == sb.extra_attrs
    &&& new_sb.unknown_children == sb.unknown_children
}

pub proof fn lemma_count_push(s: Seq<Animation>, a: Animation, o: Seq<char>)
    ensures
        count_for(s.push(a), o) == count_for(s, o) + if counts_for(a, o) {
            1nat
        } else {
            0nat
        },
{
    assert(s.push(a).drop_last() =~= s);
}

pub proof fn lemma_count_update(s: Seq<Animation>, i: int, a: Animation, o: Seq<char>)
    requires
        0 <= i < s.len(),
    ensures
        count_for(s.update(i, a), o) + (if counts_for(s[i], o) {
            1nat
        } else {
            0nat
        }) == count_for(s, o) + if counts_for(a, o) {
            1nat
        } else {
            0nat
        },
    decreases s.len(),
{
    if i == s.len() - 1 {
        assert(s.update(i, a).drop_last() =~= s.drop_last());
    } else {
        lemma_count_update(s.drop_last(), i, a, o);
        assert(s.update(i, a).drop_last() =~= s.drop_last().update(i, a));
    }
}

pub proof fn lemma_count_remove(s: Seq<Animation>, i: int, o: Seq<char>)
    requires
        0 <= i < s.len(),
    ensures
        count_for(s.remove(i), o) + (if counts_for(s[i], o) {
            1nat
        } else {
            0nat
        }) == count_for(s, o),
    decreases s.len(),
{
    if i == s.len() - 1 {
        assert(s.remove(i) =~= s.drop_last());
    } else {
        lemma_count_remove(s.drop_last(), i, o);
        assert(s.remove(i).drop_last() =~= s.drop_last().remove(i));
    }
}

/// Counting depends only on the object name with ASCII case ignored.
pub proof fn lemma_count_same_name(s: Seq<Animation>, o1: Seq<char>, o2: Seq<char>)
    requires
        same_ignoring_case(o1, o2),
    ensures
        count_for(s, o1) == count_for(s, o2),
    decreases s.len(),
{
    if s.len() > 0 {
        lemma_count_same_name(s.drop_last(), o1, o2);
    }
}

fn empty_storyboard() -> (sb: Storyboard)
    ensures
        sb.storyboard_type is None,
        !sb.reversed,
        sb.data_name is None,
        sb.animations@.len() == 0,
        sb.extra_attrs@ == Map::<Seq<char>, String>::empty(),
        sb.unknown_children@.len() == 0,
{
    Storyboard {
        storyboard_type: None,
        reversed: false,
        data_name: None,
        animations: Vec::new(),
        extra_attrs: StrMap::new(),
        unknown_children: Vec::new(),
    }
}

fn join3(a: &str, b: &str, c: &str) -> (res: String)
    ensures
        res@ == a@ + b@ + c@,
{
    let mut out = owned(a);
    out.append(b);
    out.append(c);
    out
}

fn out_of_range(what: &str) -> (e: Error)
    ensures
        e is Invalid,
{
    Error::Invalid(join3(what, " index out of range", ""))
}

fn too_many(object: &str) -> (e: Error)
    ensures
        e is Invalid,
{
    Error::Invalid(join3("object '", object, "' already has 3 animations"))
}

/// Adds an empty storyboard of the given type (`TransitionIn` when none) and
/// data name (none when empty), refusing a second storyboard of the same type
/// and data name. Returns the new storyboard's index.
pub fn add_storyboard(
    storyboards: &mut Vec<Storyboard>,
    storyboard_type: Option<String>,
    data_name: Option<String>,
) -> (res: Result<usize, Error>)
    ensures
        ({
            let ty = type_or_default(storyboard_type);
            let data = text_or_empty(data_name);
            &&& res.is_err() <==> exists|i: int|
                0 <= i < old(storyboards)@.len() && same_slot(
                    #[trigger] old(storyboards)@[i],
                    ty,
                    data,
                )
            &&& res matches Err(e) ==> e is Invalid && final(storyboards)@ == old(
                storyboards,
            )@
            &&& res matches Ok(index) ==> {
                &&& index == old(storyboards)@.len()
                &&& final(storyboards)@.len() == old(storyboards)@.len() + 1
                &&& final(storyboards)@.drop_last() == old(storyboards)@
                &&& is_new_storyboard(final(storyboards)@[index as int], ty, data)
            }
            &&& (slots_distinct(old(storyboards)@) && ty.len() > 0) ==> slots_distinct(
                final(storyboards)@,
            )
        }),
{
    let ghost ty_spec = type_or_default(storyboard_type);
    let ghost data_spec = text_or_empty(data_name);
    let ty = match storyboard_type {
        Some(t) => t,
        None => owned("TransitionIn"),
    };
    let data = match data_name {
        Some(d) => d,
        None => String::new(),
    };
    let ghost data_view = data@;
    proof {
        reveal_strlit("TransitionIn");
        assert(ty@ == ty_spec);
        assert(data@ == data_spec);
    }
    let n = storyboards.len();
    let mut i: usize = 0;
    while i < n
        invariant
            n == storyboards@.len(),
            storyboards@ == old(storyboards)@,
            ty@ == ty_spec,
            data@ == data_spec,
            ty_spec == type_or_default(storyboard_type),
            data_spec == text_or_empty(data_name),
            i <= n,
            forall|j: int| 0 <= j < i ==> !same_slot(#[trigger] storyboards@[j], ty@, data@),
        decreases n - i,
    {
        let sb = &storyboards[i];
        let existing_data: &str = match &sb.data_name {
            Some(d) => d.as_str(),
            None => "",
        };
        proof {
            reveal_strlit("");
            assert(""@ =~= Seq::<char>::empty());
            assert(existing_data@ == text_or_empty(sb.data_name));
        }
        if eq_ignore_ascii_case(sb.effective_type(), ty.as_str()) && str_eq(
            existing_data,
            data.as_str(),
        ) {
            assert(same_slot(storyboards@[i as int], ty_spec, data_spec));
            assert(same_slot(old(storyboards)@[i as int], ty_spec, data_spec));
            assert(exists|k: int|
                0 <= k < old(storyboards)@.len() && same_slot(
                    #[trigger] old(storyboards)@[k],
                    type_or_default(storyboard_type),
                    text_or_empty(data_name),
                ));
            return Err(
                Error::Invalid(
                    join3("storyboard ", ty.as_str(), " already exists for '").concat(data.as_str()).concat(
                        "'",
                    ),
                ),
            );
        }
        i = i + 1;
    }
    let transition_in = eq_ignore_ascii_case(ty.as_str(), "TransitionIn");
    let empty = data.as_str().is_empty();
    let ghost ty_view = ty@;
    let sb = Storyboard {
        storyboard_type: if transition_in {
            None
        } else {
            Some(ty)
        },
        reversed: false,
        data_name: if empty {
            None
        } else {
            Some(data)
        },
        animations: Vec::new(),
        extra_attrs: StrMap::new(),
        unknown_children: Vec::new(),
    };
    let ghost before = storyboards@;
    storyboards.push(sb);
    proof {
        assert(storyboards@.drop_last() =~= before);
        if slots_distinct(before) && ty_view.len() > 0 {
            let s = storyboards@;
            assert(effective_type_of(sb.storyboard_type) == ty_view || same_ignoring_case(
                effective_type_of(sb.storyboard_type),
                ty_view,
            ));
            assert(same_ignoring_case(effective_type_of(sb.storyboard_type), ty_view));
            assert(text_or_empty(sb.data_name) == data_view);
            assert forall|a: int, b: int| 0 <= a < b < s.len() implies !same_slot(
                #[trigger] s[b],
                effective_type_of((#[trigger] s[a]).storyboard_type),
                text_or_empty(s[a].data_name),
            ) by {
                if b == s.len() - 1 {
                    assert(!same_slot(s[a], ty_view, data_view));
                    if same_slot(
                        s[b],
                        effective_type_of(s[a].storyboard_type),
                        text_or_empty(s[a].data_name),
                    ) {
                        assert(lower_seq(effective_type_of(s[a].storyboard_type)) == lower_seq(
                            ty_view,
                        ));
                    }
                }
            }
        }
    }
    Ok(n)
}

/// Adds an animation of `object` to a storyboard, refusing a fourth counted
/// animation of the object. Without a kind, a continuous storyboard gets
/// `RotateContinuous` and any other `Fade`. Returns the animation's index.
pub fn add_animation(
    storyboards: &mut Vec<Storyboard>,
    storyboard_index: usize,
    object: &str,
    kind: Option<&str>,
) -> (res: Result<usize, Error>)
    ensures
        storyboard_index >= old(storyboards)@.len() ==> (res matches Err(e) && e is Invalid),
        storyboard_index < old(storyboards)@.len() ==> {
            let sb = old(storyboards)@[storyboard_index as int];
            let kind_view = match kind {
                Some(k) => Some(k@),
                None => None,
            };
            let continuous = same_ignoring_case(
                effective_type_of(sb.storyboard_type),
                "Continuous"@,
            );
            &&& res.is_err() <==> count_for(sb.animations@, object@) >= MAX_ANIMATIONS_PER_OBJECT
            &&& res matches Err(e) ==> e is Invalid
            &&& res matches Ok(n) ==> {
                let new_sb = final(storyboards)@[storyboard_index as int];
                let a = new_sb.animations@.last();
                &&& n == sb.animations@.len()
                &&& final(storyboards)@ == old(storyboards)@.update(
                    storyboard_index as int,
                    new_sb,
                )
                &&& is_new_animation(a, object@, kind_view, continuous)
                &&& with_animations(sb, sb.animations@.push(a), new_sb)
                &&& forall|o: Seq<char>|
                    count_for(sb.animations@, o) <= MAX_ANIMATIONS_PER_OBJECT ==> #[trigger] count_for(
                        new_sb.animations@,
                        o,
                    ) <= MAX_ANIMATIONS_PER_OBJECT
            }
        },
        res.is_err() ==> final(storyboards)@ == old(storyboards)@,
{
    if storyboard_index >= storyboards.len() {
        return Err(out_of_range("storyboard"));
    }
    let counted = storyboards[storyboard_index].counted_animations_for(object);
    if counted >= MAX_ANIMATIONS_PER_OBJECT {
        return Err(too_many(object));
    }
    let continuous = storyboards[storyboard_index].is_continuous();
    proof {
        reveal_strlit("RotateContinuous");
        reveal_strlit("Fade");
        reveal_strlit("1");
        reveal_strlit("CubicEasingInOut");
    }
    let kind_text: &str = match kind {
        Some(k) => k,
        None => if continuous {
            "RotateContinuous"
        } else {
            "Fade"
        },
    };
    let animation = Animation {
        kind: owned(kind_text),
        object: Some(owned(object)),
        duration: if str_eq(kind_text, "RotateContinuous") || str_eq(kind_text, "FillOffset")
            || str_eq(kind_text, "StrokeOffset") || str_eq(kind_text, "Blink") || str_eq(
            kind_text,
            "ImageSequenceLoop",
        ) {
            None
        } else {
            Some(owned("1"))
        },
        delay: None,
        interpolation: if continuous {
            None
        } else {
            Some(owned("CubicEasingInOut"))
        },
        direction: None,
        reversed: false,
        center_axis: None,
        speed: if continuous {
            Some(owned("1"))
        } else {
            None
        },
        muted: false,
        extra_attrs: StrMap::new(),
    };
    let ghost old_anims = storyboards@[storyboard_index as int].animations@;
    let mut sb = empty_storyboard();
    storyboards.set_and_swap(storyboard_index, &mut sb);
    let n = sb.animations.len();
    sb.animations.push(animation);
    storyboards.set_and_swap(storyboard_index, &mut sb);
    proof {
        let new_anims = old_anims.push(animation);
        assert forall|o: Seq<char>|
            count_for(old_anims, o) <= MAX_ANIMATIONS_PER_OBJECT implies #[trigger] count_for(
            new_anims,
            o,
        ) <= MAX_ANIMATIONS_PER_OBJECT by {
            lemma_count_push(old_anims, animation, o);
            if counts_for(animation, o) {
                lemma_count_same_name(old_anims, o, object@);
            }
        }
    }
    Ok(n)
}

/// Changes the fields of an animation that the patch gives. Moving the
/// animation to another object is refused when that object already has three
/// counted animations.
#[verifier::rlimit(40)]
pub fn set_animation(
    storyboards: &mut Vec<Storyboard>,
    storyboard_index: usize,
    animation_index: usize,
    patch: AnimationPatch,
) -> (res: Result<(), Error>)
    ensures
        ({
            let in_range = storyboard_index < old(storyboards)@.len() && animation_index < old(
                storyboards,
            )@[storyboard_index as int].animations@.len();
            let sb = old(storyboards)@[storyboard_index as int];
            let a = sb.animations@[animation_index as int];
            let refused = patch.object matches Some(o) && o@ != text_or_empty(a.object)
                && count_for(sb.animations@, o@) >= MAX_ANIMATIONS_PER_OBJECT;
            &&& res.is_err() <==> !in_range || refused
            &&& res matches Err(e) ==> e is Invalid && final(storyboards)@ == old(storyboards)@
            &&& res is Ok ==> {
                let new_sb = final(storyboards)@[storyboard_index as int];
                let new_anims = sb.animations@.update(animation_index as int, patched(a, patch));
                &&& final(storyboards)@ == old(storyboards)@.update(
                    storyboard_index as int,
                    new_sb,
                )
                &&& with_animations(sb, new_anims, new_sb)
                &&& (!(is_placeholder_kind(a.kind@) && !is_placeholder_kind(
                    patched(a, patch).kind@,
                )) && !(a.object.is_none() && empty_object_patch(patch)))
                    ==> forall|o: Seq<char>|
                    count_for(sb.animations@, o) <= MAX_ANIMATIONS_PER_OBJECT
                        ==> #[trigger] count_for(new_anims, o) <= MAX_ANIMATIONS_PER_OBJECT
            }
        }),
        res is Ok ==> {
            let a = old(storyboards)@[storyboard_index as int].animations@[animation_index as int];
            let na = final(storyboards)@[storyboard_index as int].animations@[animation_index as int];
            &&& patch.kind matches Some(k) ==> na.kind == k
            &&& patch.object matches Some(o) ==> na.object == Some(o)
            &&& patch.delay matches Some(d) ==> na.delay == Some(d)
            &&& patch.duration matches Some(d) ==> na.duration == Some(d)
            &&& patch.interpolation matches Some(i) ==> na.interpolation == Some(i)
            &&& patch.direction matches Some(d) ==> na.direction == Some(d)
            &&& patch.reversed matches Some(r) ==> na.reversed == r
            &&& patch.center_axis matches Some(c) ==> na.center_axis == Some(c)
            &&& patch.speed matches Some(v) ==> na.speed == Some(v)
            &&& patch.muted matches Some(m) ==> na.muted == m
            &&& patch.delay is None ==> na.delay == a.delay
            &&& patch.duration is None ==> na.duration == a.duration
            &&& na.extra_attrs == a.extra_attrs
        },
{
    if storyboard_index >= storyboards.len() {
        return Err(out_of_range("storyboard"));
    }
    if animation_index >= storyboards[storyboard_index].animations.len() {
        return Err(out_of_range("animation"));
    }
    if let Some(object) = &patch.object {
        let current: &str = match &storyboards[storyboard_index].animations[animation_index].object {
            Some(o) => o.as_str(),
            None => "",
        };
        proof {
            reveal_strlit("");
            assert(""@ =~= Seq::<char>::empty());
        }
        if !str_eq(object.as_str(), current)
            && storyboards[storyboard_index].counted_animations_for(object.as_str())
            >= MAX_ANIMATIONS_PER_OBJECT {
            return Err(too_many(object.as_str()));
        }
    }
    let ghost old_sb = storyboards@[storyboard_index as int];
    let ghost old_a = old_sb.animations@[animation_index as int];
    let ghost p = patch;
    let mut sb = empty_storyboard();
    storyboards.set_and_swap(storyboard_index, &mut sb);
    let mut animation = sb.animations.remove(animation_index);
    if let Some(kind) = patch.kind {
        animation.kind = kind;
    }
    if let Some(object) = patch.object {
        animation.object = Some(object);
    }
    if let Some(delay) = patch.delay {
        animation.delay = Some(delay);
    }
    if let Some(duration) = patch.duration {
        animation.duration = Some(duration);
    }
    if let Some(interpolation) = patch.interpolation {
        animation.interpolation = Some(interpolation);
    }
    if let Some(direction) = patch.direction {
        animation.direction = Some(direction);
    }
    if let Some(reversed) = patch.reversed {
        animation.reversed = reversed;
    }
    if let Some(center_axis) = patch.center_axis {
        animation.center_axis = Some(center_axis);
    }
    if let Some(speed) = patch.speed {
        animation.speed = Some(speed);
    }
    if let Some(muted) = patch.muted {
        animation.muted = muted;
    }
    sb.animations.insert(animation_index, animation);
    storyboards.set_and_swap(storyboard_index, &mut sb);
    proof {
        let olds = old_sb.animations@;
        let news = olds.update(animation_index as int, patched(old_a, p));
        assert(animation == patched(old_a, p));
        assert(olds.remove(animation_index as int).insert(animation_index as int, animation)
            =~= news);
        lemma_set_keeps_limit(olds, animation_index as int, p);
    }
    Ok(())
}

proof fn lemma_set_keeps_limit(olds: Seq<Animation>, i: int, p: AnimationPatch)
    requires
        0 <= i < olds.len(),
        p.object is Some && p.object->0@ != text_or_empty(olds[i].object) ==> count_for(
            olds,
            p.object->0@,
        ) < MAX_ANIMATIONS_PER_OBJECT,
    ensures
        ({
            let old_a = olds[i];
            let news = olds.update(i, patched(old_a, p));
            (!(is_placeholder_kind(old_a.kind@) && !is_placeholder_kind(patched(old_a, p).kind@))
                && !(old_a.object.is_none() && empty_object_patch(p))) ==> forall|o: Seq<char>|
                count_for(olds, o) <= MAX_ANIMATIONS_PER_OBJECT ==> #[trigger] count_for(news, o)
                    <= MAX_ANIMATIONS_PER_OBJECT
        }),
{
    let old_a = olds[i];
    let a = patched(old_a, p);
    let news = olds.update(i, a);
    if !(is_placeholder_kind(old_a.kind@) && !is_placeholder_kind(a.kind@)) && !(
    old_a.object.is_none() && empty_object_patch(p)) {
        assert forall|o: Seq<char>|
            count_for(olds, o) <= MAX_ANIMATIONS_PER_OBJECT implies #[trigger] count_for(news, o)
            <= MAX_ANIMATIONS_PER_OBJECT by {
            lemma_count_update(olds, i, a, o);
            if counts_for(a, o) && !counts_for(old_a, o) {
                let po = p.object->0;
                assert(p.object is Some);
                lemma_count_same_name(olds, o, po@);
            }
        }
    }
}

/// Removes an animation and returns it.
pub fn delete_animation(
    storyboards: &mut Vec<Storyboard>,
    storyboard_index: usize,
    animation_index: usize,
) -> (res: Result<Animation, Error>)
    ensures
        ({
            let in_range = storyboard_index < old(storyboards)@.len() && animation_index < old(
                storyboards,
            )@[storyboard_index as int].animations@.len();
            let sb = old(storyboards)@[storyboard_index as int];
            &&& res.is_err() <==> !in_range
            &&& res matches Err(e) ==> e is Invalid && final(storyboards)@ == old(storyboards)@
            &&& res matches Ok(a) ==> {
                let new_sb = final(storyboards)@[storyboard_index as int];
                &&& a == sb.animations@[animation_index as int]
                &&& final(storyboards)@ == old(storyboards)@.update(
                    storyboard_index as int,
                    new_sb,
                )
                &&& with_animations(sb, sb.animations@.remove(animation_index as int), new_sb)
            }
        }),
{
    if storyboard_index >= storyboards.len() {
        return Err(out_of_range("storyboard"));
    }
    if animation_index >= storyboards[storyboard_index].animations.len() {
        return Err(out_of_range("animation"));
    }
    let mut sb = empty_storyboard();
    storyboards.set_and_swap(storyboard_index, &mut sb);
    let animation = sb.animations.remove(animation_index);
    storyboards.set_and_swap(storyboard_index, &mut sb);
    Ok(animation)
}

/// Deleting the animation that `add_animation` just added gives back the
/// storyboard's animations as they were.
pub proof fn lemma_delete_undoes_add(before: Seq<Animation>, a: Animation)
    ensures
        before.push(a).remove(before.len() as int) == before,
{
    assert(before.push(a).remove(before.len() as int) =~= before);
}

/// Removing an animation never raises the count of any object.
pub proof fn lemma_delete_keeps_limit(anims: Seq<Animation>, i: int)
    requires
        0 <= i < anims.len(),
        within_limit(anims),
    ensures
        within_limit(anims.remove(i)),
{
    assert forall|o: Seq<char>| #[trigger] count_for(anims.remove(i), o) <= MAX_ANIMATIONS_PER_OBJECT by {
        lemma_count_remove(anims, i, o);
    }
}

/// Patching an animation sets every field that the patch gives to the given
/// value and keeps every other field as it was.
pub proof fn lemma_patch_sets_given_fields(a: Animation, p: AnimationPatch)
    ensures
        ({
            let n = patched(a, p);
            &&& n.kind == (match p.kind {
                Some(k) => k,
                None => a.kind,
            })
            &&& n.object == (match p.object {
                Some(o) => Some(o),
                None => a.object,
            })
            &&& n.delay == (match p.delay {
                Some(d) => Some(d),
                None => a.delay,
            })
            &&& n.duration == (match p.duration {
                Some(d) => Some(d),
                None => a.duration,
            })
            &&& n.interpolation == (match p.interpolation {
                Some(i) => Some(i),
                None => a.interpolation,
            })
            &&& n.direction == (match p.direction {
                Some(d) => Some(d),
                None => a.direction,
            })
            &&& n.reversed == (match p.reversed {
                Some(r) => r,
                None => a.reversed,
            })
            &&& n.center_axis == (match p.center_axis {
                Some(c) => Some(c),
                None => a.center_axis,
            })
            &&& n.speed == (match p.speed {
                Some(v) => Some(v),
                None => a.speed,
            })
            &&& n.muted == (match p.muted {
                Some(m) => m,
                None => a.muted,
            })
            &&& n.extra_attrs == a.extra_attrs
        }),
{
}

} // verus!
