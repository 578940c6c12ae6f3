use bevy_animation::clip::{AnimationClip, EntityPath, Keyframes, Quat, Vec3, VariableCurve, FIXED_ONE};
use bevy_animation::driver::{
    animation_player, check_curve, locate, sample_curve, PlayerSlot, RotationBlend, RotationTarget,
};
use bevy_animation::playback::{AnimationPlayer, ClipHandle, PlayingAnimation, RepeatAnimation, SPEED_ONE};
use bevy_animation::sampler::{find_step, lerp_morph_weights, lerp_value, shortest_path, Ratio, Step, WideQuat};
use bevy_animation::scene::{entity_from_path, verify_no_ancestor_player, Diagnostic, Node, Scene, Transform};

const SEC: i64 = 1_000_000;

fn path(names: &[&str]) -> EntityPath {
    EntityPath { parts: names.iter().map(|s| s.to_string()).collect() }
}

fn v3(x: i32, y: i32, z: i32) -> Vec3 {
    Vec3 { x, y, z }
}

fn translation_curve(ts: Vec<i64>, keys: Vec<Vec3>) -> VariableCurve {
    VariableCurve { keyframe_timestamps: ts, keyframes: Keyframes::Translation(keys) }
}

fn node(name: &str, parent: Option<usize>, children: Vec<usize>) -> Node {
    Node {
        name: Some(name.to_string()),
        parent,
        children,
        has_player: false,
        transform: Some(Transform {
            translation: v3(0, 0, 0),
            rotation: Quat { x: 0, y: 0, z: 0, w: FIXED_ONE },
            scale: v3(FIXED_ONE, FIXED_ONE, FIXED_ONE),
        }),
        morph_weights: None,
    }
}

fn one() -> Ratio {
    Ratio { num: 1, den: 1 }
}

#[test]
fn single_keyframe_same_at_any_time() {
    let c = translation_curve(vec![5 * SEC], vec![v3(100, 200, 300)]);
    for t in [0, SEC, 5 * SEC, 50 * SEC] {
        let mut tr = Transform {
            translation: v3(0, 0, 0),
            rotation: Quat { x: 0, y: 0, z: 0, w: 1 },
            scale: v3(1, 1, 1),
        };
        let mut morph = None;
        let mut rots: Vec<RotationBlend> = Vec::new();
        sample_curve(&c, t, Ratio { num: 1, den: 2 }, 0, &mut tr, &mut morph, &mut rots);
        assert_eq!(tr.translation, v3(50, 100, 150));
        assert!(rots.is_empty());
    }
}

#[test]
fn duration_is_latest_last_timestamp() {
    let mut clip = AnimationClip::new();
    assert_eq!(clip.duration(), 0);
    clip.add_curve_to_path(path(&["root", "a"]), translation_curve(vec![0, 2 * SEC], vec![v3(0, 0, 0), v3(1, 1, 1)]));
    assert_eq!(clip.duration(), 2 * SEC);
    clip.add_curve_to_path(path(&["root", "b"]), translation_curve(vec![0, SEC], vec![v3(0, 0, 0), v3(1, 1, 1)]));
    assert_eq!(clip.duration(), 2 * SEC);
    clip.add_curve_to_path(path(&["root", "a"]), translation_curve(vec![0, 3 * SEC], vec![v3(0, 0, 0), v3(1, 1, 1)]));
    assert_eq!(clip.duration(), 3 * SEC);
    clip.add_curve_to_path(path(&["root", "c"]), translation_curve(vec![], vec![]));
    assert_eq!(clip.duration(), 3 * SEC);
    assert_eq!(clip.curves().len(), 3);
    assert_eq!(clip.get_curves(0).unwrap().len(), 2);
    assert_eq!(clip.get_curves_by_path(&path(&["root", "b"])).unwrap().len(), 1);
    assert!(clip.get_curves_by_path(&path(&["root", "z"])).is_none());
    assert!(clip.get_curves(3).is_none());
}

#[test]
fn compatible_with_checks_first_names() {
    let mut clip = AnimationClip::new();
    assert!(clip.compatible_with(&"root".to_string()));
    clip.add_curve_to_path(path(&["root", "a"]), translation_curve(vec![0], vec![v3(0, 0, 0)]));
    assert!(clip.compatible_with(&"root".to_string()));
    assert!(!clip.compatible_with(&"other".to_string()));
    clip.add_curve_to_path(path(&["other"]), translation_curve(vec![0], vec![v3(0, 0, 0)]));
    assert!(!clip.compatible_with(&"root".to_string()));
}

#[test]
fn rotation_takes_short_way_round() {
    let start = Quat { x: 0, y: 0, z: 0, w: FIXED_ONE };
    let end = Quat { x: 0, y: 0, z: 100, w: -FIXED_ONE };
    let r = shortest_path(start, end);
    assert_eq!(r, WideQuat { x: 0, y: 0, z: -100, w: FIXED_ONE as i64 });
    let same = shortest_path(start, start);
    assert_eq!(same, WideQuat { x: 0, y: 0, z: 0, w: FIXED_ONE as i64 });

    let c = VariableCurve { keyframe_timestamps: vec![0, SEC], keyframes: Keyframes::Rotation(vec![start, end]) };
    let mut tr = Transform { translation: v3(0, 0, 0), rotation: start, scale: v3(1, 1, 1) };
    let mut morph = None;
    let mut rots = Vec::new();
    sample_curve(&c, SEC / 4, one(), 7, &mut tr, &mut morph, &mut rots);
    assert_eq!(rots.len(), 1);
    assert_eq!(
        rots[0],
        RotationBlend {
            node: 7,
            target: RotationTarget::Between { start, end: r, lerp: Ratio { num: (SEC / 4) as u64, den: SEC as u64 } },
            weight: one(),
        }
    );
}

#[test]
fn playback_wraps_forward() {
    let mut a = PlayingAnimation::new(Some(ClipHandle { id: 0 }));
    a.repeat = RepeatAnimation::Forever;
    a.elapsed = 1_900_000;
    let t = a.advance(2 * SEC, 400_000, false);
    assert_eq!(t, 300_000);
    assert_eq!(a.elapsed, 300_000);
    assert_eq!(a.completions, 1);
}

#[test]
fn playback_wraps_in_reverse() {
    let mut a = PlayingAnimation::new(Some(ClipHandle { id: 0 }));
    a.repeat = RepeatAnimation::Forever;
    a.speed = -SPEED_ONE;
    a.elapsed = 100_000;
    a.advance(2 * SEC, 200_000, false);
    assert_eq!(a.elapsed, 2 * SEC - 100_000);
    assert_eq!(a.completions, 1);

    let mut b = PlayingAnimation::new(Some(ClipHandle { id: 0 }));
    b.repeat = RepeatAnimation::Forever;
    b.speed = -SPEED_ONE;
    b.elapsed = 100_000;
    b.advance(2 * SEC, 300_000, false);
    assert_eq!(b.elapsed, 2 * SEC - 200_000);
    assert_eq!(b.completions, 1);
}

#[test]
fn playback_speed_and_pause() {
    let mut a = PlayingAnimation::new(Some(ClipHandle { id: 0 }));
    a.speed = 500;
    assert_eq!(a.advance(2 * SEC, 300_000, false), 150_000);
    assert_eq!(a.advance(2 * SEC, 300_000, true), 150_000);
    assert_eq!(a.completions, 0);
}

#[test]
fn finished_animation_stops_advancing() {
    let mut a = PlayingAnimation::new(Some(ClipHandle { id: 0 }));
    a.elapsed = 1_900_000;
    a.advance(2 * SEC, 400_000, false);
    assert!(a.finished());
    assert_eq!(a.advance(2 * SEC, 400_000, false), 300_000);
    assert_eq!(a.completions, 1);
}

#[test]
fn repeat_count_finishes_at_count() {
    let mut a = PlayingAnimation::new(Some(ClipHandle { id: 0 }));
    a.repeat = RepeatAnimation::Count(3);
    a.completions = 2;
    assert!(!a.finished());
    a.completions = 3;
    assert!(a.finished());
    a.repeat = RepeatAnimation::Forever;
    a.completions = u32::MAX;
    assert!(!a.finished());
    a.repeat = RepeatAnimation::Never;
    a.completions = 0;
    assert!(!a.finished());
    a.completions = 1;
    assert!(a.finished());
}

#[test]
fn transition_decays_and_goes() {
    let mut p = AnimationPlayer::new();
    p.start(ClipHandle { id: 0 });
    p.start_with_transition(ClipHandle { id: 1 }, SEC as u64);
    assert_eq!(p.transition_count(), 1);
    assert_eq!(p.transition_weight(0), Some((SEC as u64, SEC as u64)));
    for k in 1..4u64 {
        p.update_transitions(250_000);
        assert_eq!(p.transition_weight(0), Some((SEC as u64 - k * 250_000, SEC as u64)));
    }
    p.update_transitions(250_000);
    assert_eq!(p.transition_count(), 0);
    assert_eq!(p.transition_weight(0), None);
}

#[test]
fn transitions_stack_and_start_clears() {
    let mut p = AnimationPlayer::new();
    p.start(ClipHandle { id: 0 });
    p.start_with_transition(ClipHandle { id: 1 }, 1000);
    p.start_with_transition(ClipHandle { id: 2 }, 2000);
    assert_eq!(p.transition_count(), 2);
    assert_eq!(p.transition_weight(1), Some((2000, 2000)));
    assert_eq!(p.animation_clip(), Some(ClipHandle { id: 2 }));
    p.update_transitions(1500);
    assert_eq!(p.transition_count(), 1);
    assert_eq!(p.transition_weight(0), Some((500, 2000)));
    p.start(ClipHandle { id: 3 });
    assert_eq!(p.transition_count(), 0);
}

#[test]
fn guard_finds_player_above() {
    let mut nodes = vec![node("top", None, vec![1]), node("mid", Some(0), vec![2]), node("low", Some(1), vec![])];
    let scene = Scene { nodes: nodes.clone() };
    assert!(verify_no_ancestor_player(None, &scene));
    assert!(verify_no_ancestor_player(Some(1), &scene));
    nodes[0].has_player = true;
    let scene = Scene { nodes };
    assert!(!verify_no_ancestor_player(Some(1), &scene));
    assert!(!verify_no_ancestor_player(Some(0), &scene));
    assert!(verify_no_ancestor_player(Some(9), &scene));
}

#[test]
fn path_cache_reused_and_refreshed() {
    let mut scene = Scene {
        nodes: vec![
            node("root", None, vec![1, 2]),
            node("arm", Some(0), vec![3]),
            node("leg", Some(0), vec![]),
            node("hand", Some(1), vec![]),
        ],
    };
    let parts = path(&["root", "arm", "hand"]);
    let mut cache: Vec<Option<usize>> = Vec::new();
    let mut diags: Vec<Diagnostic> = Vec::new();
    assert_eq!(entity_from_path(0, &parts, &scene, &mut cache, &mut diags), Some(3));
    assert_eq!(cache, vec![None, Some(1), Some(3)]);
    assert_eq!(entity_from_path(0, &parts, &scene, &mut cache, &mut diags), Some(3));
    assert_eq!(cache, vec![None, Some(1), Some(3)]);
    // rename the cached node and give the name to another child
    scene.nodes[1].name = Some("old_arm".to_string());
    scene.nodes[2].name = Some("arm".to_string());
    scene.nodes[2].children = vec![3];
    assert_eq!(entity_from_path(0, &parts, &scene, &mut cache, &mut diags), Some(3));
    assert_eq!(cache, vec![None, Some(2), Some(3)]);
    // a missing name fails without touching the cache
    let missing = path(&["root", "tail"]);
    let mut c2: Vec<Option<usize>> = vec![None, Some(2), Some(3)];
    assert_eq!(entity_from_path(0, &missing, &scene, &mut c2, &mut diags), None);
    assert_eq!(c2, vec![None, Some(2)]);
    assert_eq!(diags, vec![Diagnostic::EntityNotFound { root: 0, depth: 1 }]);
}

#[test]
fn play_is_idempotent_unless_paused_or_other() {
    let mut p = AnimationPlayer::new();
    p.play(ClipHandle { id: 4 });
    p.set_elapsed(1234);
    p.play(ClipHandle { id: 4 });
    assert_eq!(p.elapsed(), 1234);
    p.pause();
    p.play(ClipHandle { id: 4 });
    assert_eq!(p.elapsed(), 0);
    assert!(p.is_paused());
    p.resume();
    p.set_elapsed(99);
    p.play(ClipHandle { id: 5 });
    assert_eq!(p.elapsed(), 0);
    assert!(p.is_playing_clip(&ClipHandle { id: 5 }));
    p.set_elapsed(7);
    p.play_with_transition(ClipHandle { id: 5 }, 100);
    assert_eq!(p.elapsed(), 7);
    assert_eq!(p.transition_count(), 0);
    p.play_with_transition(ClipHandle { id: 6 }, 100);
    assert_eq!(p.transition_count(), 1);
}

#[test]
fn player_controls() {
    let mut p = AnimationPlayer::new();
    assert_eq!(p.animation_clip(), None);
    assert!(!p.is_playing_clip(&ClipHandle { id: 0 }));
    assert!(p.is_finished() == false);
    p.set_speed(-2000);
    assert_eq!(p.speed(), -2000);
    assert!(p.is_playback_reversed());
    p.repeat();
    assert!(!p.is_finished());
    p.set_repeat(RepeatAnimation::Count(0));
    assert!(p.is_finished());
    p.stop_repeating();
    assert!(!p.is_finished());
    assert_eq!(p.completions(), 0);
}

#[test]
fn binary_search_steps() {
    let ts = vec![0, 10, 10, 20, 30];
    assert_eq!(find_step(&ts, -1), Step::NotStarted);
    assert_eq!(find_step(&ts, 0), Step::Between(0));
    assert_eq!(find_step(&ts, 10), Step::Between(2));
    assert_eq!(find_step(&ts, 25), Step::Between(3));
    assert_eq!(find_step(&ts, 30), Step::Finished);
    assert_eq!(find_step(&ts, 31), Step::Finished);
    assert_eq!(locate(&ts, 15), Some((2, 3, Ratio { num: 5, den: 10 })));
    assert_eq!(locate(&vec![7], 100), Some((0, 0, Ratio { num: 0, den: 1 })));
    assert_eq!(locate(&vec![], 100), None);
}

#[test]
fn lerp_exact_values() {
    assert_eq!(lerp_value(0, 100, Ratio { num: 1, den: 4 }), 25);
    assert_eq!(lerp_value(100, 0, Ratio { num: 1, den: 4 }), 75);
    assert_eq!(lerp_value(-10, 10, Ratio { num: 1, den: 3 }), -4);
    assert_eq!(lerp_value(i32::MIN, i32::MAX, one()), i32::MAX);
}

#[test]
fn morph_weights_blend() {
    let mut w = vec![0, 100];
    let keys = vec![10, 20, 30, 40];
    lerp_morph_weights(&mut w, Ratio { num: 1, den: 2 }, one(), &keys, 0, 1);
    assert_eq!(w, vec![20, 30]);
    let mut w2 = vec![0, 100];
    lerp_morph_weights(&mut w2, Ratio { num: 0, den: 1 }, Ratio { num: 1, den: 2 }, &keys, 1, 1);
    assert_eq!(w2, vec![15, 70]);
}

#[test]
fn malformed_curve_is_rejected() {
    assert!(!check_curve(&translation_curve(vec![0, 10], vec![v3(0, 0, 0)]), 0));
    assert!(!check_curve(&translation_curve(vec![10, 0], vec![v3(0, 0, 0), v3(0, 0, 0)]), 0));
    assert!(check_curve(&translation_curve(vec![0, 10], vec![v3(0, 0, 0), v3(0, 0, 0)]), 0));
    let w = VariableCurve { keyframe_timestamps: vec![0, 1], keyframes: Keyframes::Weights(vec![1, 2, 3, 4]) };
    assert!(check_curve(&w, 2));
    assert!(!check_curve(&w, 3));
}

fn demo_scene() -> Scene {
    Scene { nodes: vec![node("root", None, vec![1]), node("bone", Some(0), vec![])] }
}

fn demo_clip() -> AnimationClip {
    let mut clip = AnimationClip::new();
    clip.add_curve_to_path(
        path(&["root", "bone"]),
        translation_curve(vec![0, 2 * SEC], vec![v3(0, 0, 0), v3(2000, 0, 0)]),
    );
    clip
}

#[test]
fn frame_writes_translation() {
    let mut scene = demo_scene();
    scene.nodes[0].has_player = true;
    let clips = vec![demo_clip()];
    let mut player = AnimationPlayer::new();
    player.play(ClipHandle { id: 0 });
    let mut players = vec![PlayerSlot { entity: 0, changed: true, player }];
    let mut rots = Vec::new();
    let mut diags: Vec<Diagnostic> = Vec::new();
    animation_player(&mut players, SEC as u64 / 2, &clips, &mut scene, &mut rots, &mut diags);
    assert_eq!(players[0].player.elapsed(), SEC / 2);
    assert_eq!(scene.nodes[1].transform.unwrap().translation, v3(500, 0, 0));
    animation_player(&mut players, SEC as u64, &clips, &mut scene, &mut rots, &mut diags);
    assert_eq!(scene.nodes[1].transform.unwrap().translation, v3(1500, 0, 0));
    assert!(rots.is_empty());
}

#[test]
fn frame_skips_nested_player() {
    let mut scene = Scene {
        nodes: vec![node("top", None, vec![1]), node("root", Some(0), vec![2]), node("bone", Some(1), vec![])],
    };
    scene.nodes[0].has_player = true;
    scene.nodes[1].has_player = true;
    let clips = vec![demo_clip()];
    let mut player = AnimationPlayer::new();
    player.play(ClipHandle { id: 0 });
    let mut players = vec![PlayerSlot { entity: 1, changed: true, player }];
    let mut rots = Vec::new();
    let mut diags: Vec<Diagnostic> = Vec::new();
    animation_player(&mut players, SEC as u64 / 2, &clips, &mut scene, &mut rots, &mut diags);
    assert_eq!(players[0].player.elapsed(), 0);
    assert_eq!(players[0].player.completions(), 0);
    assert_eq!(scene.nodes[2].transform.unwrap().translation, v3(0, 0, 0));
    assert_eq!(diags, vec![Diagnostic::ConflictingPlayer { root: 1 }]);
}

#[test]
fn frame_paused_untouched_does_nothing() {
    let mut scene = demo_scene();
    let clips = vec![demo_clip()];
    let mut player = AnimationPlayer::new();
    player.play(ClipHandle { id: 0 });
    player.pause();
    let mut players = vec![PlayerSlot { entity: 0, changed: false, player }];
    let mut rots = Vec::new();
    let mut diags: Vec<Diagnostic> = Vec::new();
    animation_player(&mut players, SEC as u64 / 2, &clips, &mut scene, &mut rots, &mut diags);
    assert_eq!(players[0].player.elapsed(), 0);
    assert_eq!(scene.nodes[1].transform.unwrap().translation, v3(0, 0, 0));
}

#[test]
fn frame_missing_clip_does_nothing() {
    let mut scene = demo_scene();
    let clips: Vec<AnimationClip> = Vec::new();
    let mut player = AnimationPlayer::new();
    player.play(ClipHandle { id: 3 });
    let mut players = vec![PlayerSlot { entity: 0, changed: true, player }];
    let mut rots = Vec::new();
    let mut diags: Vec<Diagnostic> = Vec::new();
    animation_player(&mut players, SEC as u64, &clips, &mut scene, &mut rots, &mut diags);
    assert_eq!(players[0].player.elapsed(), 0);
}

#[test]
fn frame_cross_fade_blends_both() {
    let mut scene = demo_scene();
    let mut other = AnimationClip::new();
    other.add_curve_to_path(path(&["root", "bone"]), translation_curve(vec![0], vec![v3(0, 4000, 0)]));
    let clips = vec![demo_clip(), other];
    let mut player = AnimationPlayer::new();
    player.play(ClipHandle { id: 1 });
    player.play_with_transition(ClipHandle { id: 0 }, SEC as u64);
    let mut players = vec![PlayerSlot { entity: 0, changed: true, player }];
    let mut rots = Vec::new();
    let mut diags: Vec<Diagnostic> = Vec::new();
    animation_player(&mut players, SEC as u64 / 2, &clips, &mut scene, &mut rots, &mut diags);
    assert_eq!(players[0].player.transition_count(), 1);
    // active clip at full weight to (500, 0, 0), then the fading clip at weight 1/2 toward (0, 4000, 0)
    assert_eq!(scene.nodes[1].transform.unwrap().translation, v3(250, 2000, 0));
}

#[test]
fn frame_writes_scale_morph_and_requests_rotation() {
    let mut scene = demo_scene();
    scene.nodes[1].morph_weights = Some(vec![0, 0]);
    let mut clip = AnimationClip::new();
    let bone = path(&["root", "bone"]);
    clip.add_curve_to_path(bone.clone(), VariableCurve {
        keyframe_timestamps: vec![0, 2 * SEC],
        keyframes: Keyframes::Scale(vec![v3(0, 0, 0), v3(4000, 4000, 4000)]),
    });
    clip.add_curve_to_path(bone.clone(), VariableCurve {
        keyframe_timestamps: vec![0, 2 * SEC],
        keyframes: Keyframes::Weights(vec![0, 0, 1000, 2000]),
    });
    let q0 = Quat { x: 0, y: 0, z: 0, w: FIXED_ONE };
    let q1 = Quat { x: 0, y: 0, z: FIXED_ONE, w: 0 };
    clip.add_curve_to_path(bone, VariableCurve {
        keyframe_timestamps: vec![0, 2 * SEC],
        keyframes: Keyframes::Rotation(vec![q0, q1]),
    });
    // a curve whose data does not fit its timestamps is left out
    clip.add_curve_to_path(path(&["root", "bone"]), translation_curve(vec![0, SEC], vec![v3(9, 9, 9)]));
    let clips = vec![clip];
    let mut player = AnimationPlayer::new();
    player.start(ClipHandle { id: 0 });
    let mut players = vec![PlayerSlot { entity: 0, changed: false, player }];
    let mut rots = Vec::new();
    let mut diags: Vec<Diagnostic> = Vec::new();
    animation_player(&mut players, SEC as u64 / 2, &clips, &mut scene, &mut rots, &mut diags);
    let tr = scene.nodes[1].transform.unwrap();
    assert_eq!(tr.scale, v3(1000, 1000, 1000));
    assert_eq!(tr.translation, v3(0, 0, 0));
    assert_eq!(scene.nodes[1].morph_weights, Some(vec![250, 500]));
    assert_eq!(
        rots,
        vec![RotationBlend {
            node: 1,
            target: RotationTarget::Between {
                start: q0,
                end: WideQuat { x: 0, y: 0, z: FIXED_ONE as i64, w: 0 },
                lerp: Ratio { num: (SEC / 2) as u64, den: (2 * SEC) as u64 },
            },
            weight: one(),
        }]
    );
}

#[test]
fn curve_not_started_or_finished_writes_nothing() {
    let c = translation_curve(vec![SEC, 2 * SEC], vec![v3(100, 0, 0), v3(200, 0, 0)]);
    let start = Transform { translation: v3(7, 7, 7), rotation: Quat { x: 0, y: 0, z: 0, w: 1 }, scale: v3(1, 1, 1) };
    for t in [0, 2 * SEC, 3 * SEC] {
        let mut tr = start;
        let mut morph = None;
        let mut rots = Vec::new();
        sample_curve(&c, t, one(), 0, &mut tr, &mut morph, &mut rots);
        assert_eq!(tr, start);
    }
    let mut tr = start;
    let mut morph = None;
    let mut rots = Vec::new();
    sample_curve(&c, SEC, one(), 0, &mut tr, &mut morph, &mut rots);
    assert_eq!(tr.translation, v3(100, 0, 0));
}

#[test]
fn default_values() {
    let p = AnimationPlayer::default();
    assert_eq!(p.speed(), SPEED_ONE);
    assert_eq!(p.elapsed(), 0);
    assert!(!p.is_paused());
    let a = PlayingAnimation::default();
    assert_eq!(a.repeat, RepeatAnimation::Never);
    let c = AnimationClip::default();
    assert_eq!(c.duration(), 0);
    assert!(EntityPath::default().parts.is_empty());
}

#[test]
fn entity_paths_compare_by_names() {
    assert!(path(&["a", "b"]) == path(&["a", "b"]));
    assert!(path(&["a", "b"]) != path(&["a", "c"]));
    assert!(path(&["a"]) != path(&["a", "b"]));
    assert!(EntityPath::default() == path(&[]));
}

#[test]
fn frame_reports_missing_path_and_goes_on() {
    let mut scene = demo_scene();
    let mut clip = demo_clip();
    clip.add_curve_to_path(path(&["root", "ghost"]), translation_curve(vec![0], vec![v3(5, 5, 5)]));
    let clips = vec![clip];
    let mut player = AnimationPlayer::new();
    player.play(ClipHandle { id: 0 });
    let mut players = vec![PlayerSlot { entity: 0, changed: true, player }];
    let mut rots = Vec::new();
    let mut diags: Vec<Diagnostic> = Vec::new();
    animation_player(&mut players, SEC as u64 / 2, &clips, &mut scene, &mut rots, &mut diags);
    assert_eq!(scene.nodes[1].transform.unwrap().translation, v3(500, 0, 0));
    assert_eq!(diags, vec![Diagnostic::EntityNotFound { root: 0, depth: 1 }]);
}
