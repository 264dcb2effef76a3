use classicube_pet_plugin::custom_models::{
    accepts_define, accepts_undef, begin_pet_injection, copy_route, end_pet_injection, handle_define, handle_part,
    handle_undef, parse_name, patch_define, patch_part, pick_free_slot, release_pet_slot,
    CapturedModel, CopyRoute, CustomModelError, State, CUSTOM_MODELS_V2_PART_SIZE,
    DEFINE_MODEL_LEN, DEFINE_MODEL_PART_LEN,
};

// -- Helpers for building synthetic payloads ------------------------------

fn make_define_payload(id: u8, name: &str, num_parts: u8) -> Vec<u8> {
    let mut pkt = vec![0u8; DEFINE_MODEL_LEN];
    pkt[0] = id;
    let name_bytes = name.as_bytes();
    let len = name_bytes.len().min(64);
    pkt[1..1 + len].copy_from_slice(&name_bytes[..len]);
    pkt[114] = num_parts;
    pkt
}

fn make_part_payload(id: u8) -> Vec<u8> {
    let mut pkt = vec![0u8; DEFINE_MODEL_PART_LEN];
    pkt[0] = id;
    pkt
}

// -- parse_name -----------------------------------------------------------

#[test]
fn parse_name_nul_terminated() {
    let data = make_define_payload(3, "myskin", 1);
    assert_eq!(parse_name(&data), "myskin");
}

#[test]
fn parse_name_space_terminated() {
    let mut pkt = vec![0u8; DEFINE_MODEL_LEN];
    pkt[1..6].copy_from_slice(b"hello");
    for b in &mut pkt[6..65] {
        *b = b' ';
    }
    assert_eq!(parse_name(&pkt), "hello");
}

#[test]
fn parse_name_full_64() {
    let name = "x".repeat(64);
    let mut pkt = vec![0u8; DEFINE_MODEL_LEN];
    pkt[1..65].copy_from_slice(name.as_bytes());
    assert_eq!(parse_name(&pkt), name);
}

#[test]
fn parse_name_too_short_returns_empty() {
    assert_eq!(parse_name(&[0u8; 10]), "");
}

#[test]
fn parse_name_invalid_utf8_is_replaced() {
    let mut pkt = vec![0u8; DEFINE_MODEL_LEN];
    pkt[1] = b'a';
    pkt[2] = 0xFF;
    pkt[3] = b'b';
    assert_eq!(parse_name(&pkt), "a\u{FFFD}b");
}

// -- patch_define ---------------------------------------------------------

#[test]
fn patch_define_sets_slot_and_name() {
    let original = make_define_payload(5, "oldname", 3);
    let patched = patch_define(&original, 42, "newname");
    assert_eq!(patched[0], 42, "slot byte");
    assert_eq!(&patched[1..8], b"newname", "name start");
    assert!(
        patched[8..65].iter().all(|&b| b == 0),
        "rest of name field NUL-padded"
    );
    assert_eq!(&patched[65..], &original[65..], "geometry bytes unchanged");
}

#[test]
fn patch_define_name_exactly_64_bytes() {
    let original = make_define_payload(0, "x", 1);
    let name64 = "a".repeat(64);
    let patched = patch_define(&original, 1, &name64);
    assert_eq!(patched[0], 1);
    assert_eq!(&patched[1..65], name64.as_bytes());
}

#[test]
fn patch_define_name_truncated_to_64_bytes() {
    let original = make_define_payload(0, "x", 1);
    let long_name = "b".repeat(80);
    let patched = patch_define(&original, 1, &long_name);
    // Only the first 64 bytes of the name should appear
    assert_eq!(&patched[1..65], &long_name.as_bytes()[..64]);
}

#[test]
fn patch_define_wrong_length_is_copied_unchanged() {
    let data = vec![9u8, 8, 7];
    assert_eq!(patch_define(&data, 1, "name"), data);
}

#[test]
fn patched_define_name_reads_back() {
    let original = make_define_payload(7, "something", 2);
    let patched = patch_define(&original, 12, "pet_dragon");
    assert_eq!(parse_name(&patched), "pet_dragon");
}

// -- patch_part -----------------------------------------------------------

#[test]
fn patch_part_sets_slot() {
    let original = make_part_payload(5);
    let patched = patch_part(&original, 42);
    assert_eq!(patched[0], 42);
    assert_eq!(&patched[1..], &original[1..]);
}

#[test]
fn patch_part_wrong_length_is_copied_unchanged() {
    let data = vec![5u8; 10];
    assert_eq!(patch_part(&data, 42), data);
}

// -- pick_free_slot -------------------------------------------------------

#[test]
fn pick_free_slot_all_free_returns_highest() {
    let occupied = [false; 64];
    assert_eq!(pick_free_slot(&occupied), Some(63));
}

#[test]
fn pick_free_slot_all_occupied_returns_none() {
    let occupied = [true; 64];
    assert_eq!(pick_free_slot(&occupied), None);
}

#[test]
fn pick_free_slot_returns_highest_free() {
    let mut occupied = [true; 64];
    occupied[10] = false;
    occupied[20] = false;
    assert_eq!(pick_free_slot(&occupied), Some(20));
}

// -- capture state machine ------------------------------------------------

#[test]
fn capture_completes_after_all_parts() {
    let mut s = State::default();
    let define = make_define_payload(5, "mymodel", 2);
    handle_define(&mut s, &define);
    assert!(s.is_occupied(5), "slot marked occupied after define");
    assert!(s.has_in_progress(5), "in-progress entry created");

    handle_part(&mut s, &make_part_payload(5));
    assert!(s.has_in_progress(5), "still in progress after part 1/2");

    handle_part(&mut s, &make_part_payload(5));
    assert!(!s.has_in_progress(5), "in-progress cleared after part 2/2");
    let captured = s.captured_model("mymodel").expect("model in captured map");
    assert_eq!(captured.define, define);
    assert_eq!(captured.parts.len(), 2);
}

#[test]
fn capture_ignores_pet_prefix() {
    let mut s = State::default();
    handle_define(&mut s, &make_define_payload(5, "pet_foo", 1));
    assert!(!s.is_occupied(5), "pet_ model does not mark slot occupied");
    assert!(!s.has_in_progress(5));
    assert!(s.captured_model("pet_foo").is_none());
}

#[test]
fn capture_undefine_clears_slot() {
    let mut s = State::default();
    handle_define(&mut s, &make_define_payload(5, "mymodel", 2));
    assert!(s.is_occupied(5));

    handle_undef(&mut s, &[5]);
    assert!(!s.is_occupied(5));
    assert!(!s.has_in_progress(5));
}

#[test]
fn capture_part_for_unknown_slot_is_noop() {
    let mut s = State::default();
    // No DefineModel was seen for slot 9; a stray part should not panic.
    handle_part(&mut s, &make_part_payload(9));
    assert!(s.in_progress_is_empty());
    assert!(s.captured_is_empty());
}

#[test]
fn capture_undefine_empty_payload_is_noop() {
    let mut s = State::default();
    handle_undef(&mut s, &[]);
    // Nothing should have changed.
    assert_eq!(s.occupied_slots(), [false; 64]);
}

#[test]
fn capture_zero_part_model_waits_for_256_parts() {
    let mut s = State::default();
    handle_define(&mut s, &make_define_payload(3, "zero", 0));
    for _ in 0..255 {
        handle_part(&mut s, &make_part_payload(3));
    }
    assert!(s.has_in_progress(3));
    handle_part(&mut s, &make_part_payload(3));
    assert!(!s.has_in_progress(3));
    assert_eq!(s.captured_model("zero").expect("captured").parts.len(), 256);
}

#[test]
fn capture_redefined_model_replaces_earlier_capture() {
    let mut s = State::default();
    let first = make_define_payload(4, "same", 1);
    handle_define(&mut s, &first);
    handle_part(&mut s, &make_part_payload(4));
    let mut second = make_define_payload(6, "same", 1);
    second[70] = 1;
    handle_define(&mut s, &second);
    handle_part(&mut s, &make_part_payload(6));
    assert_eq!(s.captured_model("same").expect("captured").define, second);
}

#[test]
fn capture_part_of_wrong_length_is_ignored() {
    let mut s = State::default();
    handle_define(&mut s, &make_define_payload(5, "m", 1));
    handle_part(&mut s, &[5u8; 20]);
    assert!(s.has_in_progress(5));
    assert!(s.captured_is_empty());
}

// -- pet-slot collision guard ---------------------------------------------

#[test]
fn define_on_pet_slot_triggers_revert() {
    let mut s = State::default();
    s.set_pet_slot(Some(5));
    s.set_occupied(5, true);

    let revert = handle_define(&mut s, &make_define_payload(5, "servermodel", 1));
    assert!(revert, "foreign define on pet slot signals a revert");
    assert_eq!(s.pet_slot(), None, "pet claim dropped");
    assert!(s.is_occupied(5), "slot now belongs to the server model");
    assert!(s.has_in_progress(5), "server model captured normally");
}

#[test]
fn foreign_pet_named_define_on_pet_slot_triggers_revert() {
    let mut s = State::default();
    s.set_pet_slot(Some(5));
    s.set_occupied(5, true);

    // A server model whose name starts with "pet_" landing on the pet slot is
    // still a foreign collision: the name filter must not suppress the revert.
    let revert = handle_define(&mut s, &make_define_payload(5, "pet_foo", 1));
    assert!(revert, "foreign pet_-named define on pet slot reverts");
    assert_eq!(s.pet_slot(), None, "pet claim dropped");
    assert!(
        !s.has_in_progress(5),
        "pet_-named models are still not captured"
    );
}

#[test]
fn injected_replay_does_not_revert() {
    let mut s = State::default();
    s.set_pet_slot(Some(5));
    s.set_occupied(5, true);
    // The `injecting` flag marks the defines we replay ourselves; they target
    // pet_slot but must not self-trigger the collision revert.
    s.set_injecting(true);

    let revert = handle_define(&mut s, &make_define_payload(5, "pet_foo", 1));
    assert!(!revert, "our own replayed define does not revert");
    assert_eq!(s.pet_slot(), Some(5), "pet claim untouched during injection");
    assert!(!s.has_in_progress(5), "injected replay is not captured");
}

#[test]
fn define_on_other_slot_no_revert() {
    let mut s = State::default();
    s.set_pet_slot(Some(5));

    let revert = handle_define(&mut s, &make_define_payload(7, "servermodel", 1));
    assert!(!revert, "define on a different slot does not revert");
    assert_eq!(s.pet_slot(), Some(5), "pet claim untouched");
}

#[test]
fn undef_on_pet_slot_triggers_revert() {
    let mut s = State::default();
    s.set_pet_slot(Some(5));
    s.set_occupied(5, true);

    let revert = handle_undef(&mut s, &[5]);
    assert!(revert, "undefine of pet slot signals a revert");
    assert_eq!(s.pet_slot(), None, "pet claim dropped");
    assert!(!s.is_occupied(5), "slot freed");
}

#[test]
fn undef_on_other_slot_no_revert() {
    let mut s = State::default();
    s.set_pet_slot(Some(5));

    let revert = handle_undef(&mut s, &[7]);
    assert!(!revert, "undefine of a different slot does not revert");
    assert_eq!(s.pet_slot(), Some(5), "pet claim untouched");
}

// -- the pet's own slot ---------------------------------------------------

fn captured_pair(s: &mut State, id: u8, name: &str) {
    handle_define(s, &make_define_payload(id, name, 1));
    handle_part(s, &make_part_payload(id));
}

#[test]
fn begin_pet_injection_moves_pet_to_highest_free_slot() {
    let mut s = State::default();
    captured_pair(&mut s, 2, "dragon");
    s.set_occupied(63, true);
    let model: CapturedModel = {
        let m = s.captured_model("dragon").expect("captured");
        CapturedModel { define: m.define.clone(), parts: m.parts.clone() }
    };
    let inj = begin_pet_injection(&mut s, "dragon", &model).ok().expect("a free slot");
    assert_eq!(inj.new_slot, 62);
    assert_eq!(inj.old_slot, None);
    assert_eq!(inj.pet_name, "pet_dragon");
    assert_eq!(inj.define[0], 62);
    assert_eq!(parse_name(&inj.define), "pet_dragon");
    assert_eq!(inj.parts.len(), 1);
    assert_eq!(inj.parts[0][0], 62);
    assert_eq!(s.pet_slot(), Some(62));
    assert!(s.is_occupied(62));
    assert!(s.is_injecting());

    // Our replayed define on the new slot is not a collision.
    assert!(!handle_define(&mut s, &inj.define));
    assert_eq!(s.pet_slot(), Some(62));
    end_pet_injection(&mut s);
    assert!(!s.is_injecting());

    // A second copy picks the highest slot free while the old one is still
    // held, then frees the old one.
    let again = begin_pet_injection(&mut s, "dragon", &model).ok().expect("a free slot");
    assert_eq!(again.old_slot, Some(62));
    assert_eq!(again.new_slot, 61);
    assert!(!s.is_occupied(62));
    assert!(s.is_occupied(61));
}

#[test]
fn begin_pet_injection_fails_when_every_slot_is_used() {
    let mut s = State::default();
    for i in 0..64u8 {
        s.set_occupied(i, true);
    }
    let model = CapturedModel { define: make_define_payload(1, "m", 0), parts: vec![] };
    match begin_pet_injection(&mut s, "m", &model) {
        Err(e) => assert_eq!(e.message(), "[Pet] All 64 custom model slots are in use"),
        Ok(_) => panic!("expected every slot to be in use"),
    }
    assert_eq!(s.pet_slot(), None);
    assert!(!s.is_injecting());
}

#[test]
fn begin_pet_injection_cuts_long_names_to_64_chars() {
    let mut s = State::default();
    let long = "n".repeat(70);
    let model = CapturedModel { define: make_define_payload(1, "m", 0), parts: vec![] };
    let inj = begin_pet_injection(&mut s, &long, &model).ok().expect("a free slot");
    assert_eq!(inj.pet_name.chars().count(), 64);
    assert!(inj.pet_name.starts_with("pet_nnn"));
}

#[test]
fn release_pet_slot_frees_the_slot() {
    let mut s = State::default();
    s.set_pet_slot(Some(40));
    s.set_occupied(40, true);
    assert_eq!(release_pet_slot(&mut s), Some(40));
    assert_eq!(s.pet_slot(), None);
    assert!(!s.is_occupied(40));
    assert_eq!(release_pet_slot(&mut s), None);
}

#[test]
fn clear_forgets_everything() {
    let mut s = State::default();
    captured_pair(&mut s, 2, "dragon");
    s.set_pet_slot(Some(3));
    s.clear();
    assert!(s.captured_is_empty());
    assert!(s.in_progress_is_empty());
    assert_eq!(s.pet_slot(), None);
    assert_eq!(s.occupied_slots(), [false; 64]);
}

#[test]
fn slots_stay_consistent_over_a_session() {
    let mut s = State::default();
    captured_pair(&mut s, 1, "a");
    handle_define(&mut s, &make_define_payload(2, "b", 3));
    let model = CapturedModel { define: make_define_payload(1, "a", 1), parts: vec![make_part_payload(1)] };
    let inj = begin_pet_injection(&mut s, "a", &model).ok().expect("free slot");
    end_pet_injection(&mut s);
    // every slot with a model in progress is occupied, and the pet's slot has none in progress
    for id in 0..64u8 {
        if s.has_in_progress(id) {
            assert!(s.is_occupied(id));
        }
    }
    assert!(!s.has_in_progress(inj.new_slot));
}

// -- choosing how to copy a model ------------------------------------------------

#[test]
fn copy_route_injects_captured_models_on_v2_servers() {
    let mut s = State::default();
    handle_define(&mut s, &make_define_payload(4, "dragon", 1));
    handle_part(&mut s, &make_part_payload(4));
    assert_eq!(CUSTOM_MODELS_V2_PART_SIZE, 167);
    assert!(matches!(copy_route(&s, "dragon", false, 167), Ok(CopyRoute::InjectCaptured)));
    assert!(matches!(copy_route(&s, "dragon", true, 167), Ok(CopyRoute::InjectCaptured)));
    match copy_route(&s, "dragon", true, 166) {
        Err(e) => assert_eq!(e.message(), "[Pet] Server does not support custom models v2"),
        Ok(_) => panic!("expected the v2 guard to refuse"),
    }
}

#[test]
fn copy_route_uses_known_models_directly() {
    let s = State::default();
    assert!(matches!(copy_route(&s, "chicken", true, 0), Ok(CopyRoute::KnownModel)));
    match copy_route(&s, "ghost", false, 167) {
        Err(e) => {
            assert!(matches!(&e, CustomModelError::NotCaptured { name } if name == "ghost"));
            assert_eq!(e.message(), "[Pet] Model 'ghost' not yet captured -- try /reload");
        }
        Ok(_) => panic!("an unknown, uncaptured model cannot be copied"),
    }
}

#[test]
fn error_messages() {
    assert_eq!(
        CustomModelError::ModuleInactive.message(),
        "[Pet] Custom models module not active"
    );
    assert_eq!(
        CustomModelError::EntityUnavailable.message(),
        "[Pet] Entity not available (are you in a world?)"
    );
    assert_eq!(CustomModelError::NoModel.message(), "[Pet] Entity has no model");
    assert_eq!(CustomModelError::NoModelName.message(), "[Pet] Entity model has no name");
    assert_eq!(
        CustomModelError::AllSlotsInUse.message(),
        "[Pet] All 64 custom model slots are in use"
    );
    assert_eq!(
        CustomModelError::PetUnavailable.message(),
        "[Pet] Pet not available (are you in a world?)"
    );
}

#[test]
fn handlers_accept_only_slots_in_the_table() {
    let mut s = State::default();
    assert!(accepts_define(&s, &make_define_payload(63, "m", 1)));
    assert!(!accepts_define(&s, &make_define_payload(64, "m", 1)));
    // pet_-named defines are never recorded, so any slot number passes.
    assert!(accepts_define(&s, &make_define_payload(200, "pet_m", 1)));
    // Short payloads are ignored.
    assert!(accepts_define(&s, &[200u8; 10]));
    s.set_injecting(true);
    assert!(accepts_define(&s, &make_define_payload(64, "m", 1)));
    assert!(accepts_undef(&[]));
    assert!(accepts_undef(&[63]));
    assert!(!accepts_undef(&[64]));
}

#[test]
fn releasing_a_fresh_claim_frees_both_slots() {
    let mut s = State::default();
    let model = CapturedModel { define: make_define_payload(1, "m", 0), parts: vec![] };
    let first = begin_pet_injection(&mut s, "m", &model).ok().expect("a free slot");
    end_pet_injection(&mut s);
    assert_eq!(first.new_slot, 63);
    let second = begin_pet_injection(&mut s, "m", &model).ok().expect("a free slot");
    assert_eq!(second.new_slot, 62);
    assert_eq!(release_pet_slot(&mut s), Some(62));
    assert!(!s.is_occupied(62));
    assert!(!s.is_occupied(63));
    assert_eq!(s.pet_slot(), None);
    assert!(s.is_injecting());
}
