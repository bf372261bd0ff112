use vpy_core::animres::{default_intensity, VAnimAnimation, VAnimFrame};

fn frame(id: &str, vector: &str, duration: u16, intensity: u8) -> VAnimFrame {
    VAnimFrame {
        id: id.to_string(),
        vector_name: vector.to_string(),
        duration,
        intensity,
        offset_x: 0,
        offset_y: 0,
        mirror: 0,
    }
}

fn animation(name: &str, frames: Vec<VAnimFrame>) -> VAnimAnimation {
    VAnimAnimation {
        version: "1.0".to_string(),
        name: name.to_string(),
        author: String::new(),
        created: String::new(),
        frames,
        states: Vec::new(),
        controller: None,
    }
}

#[test]
fn test_compile_to_asm() {
    let anim = animation("test_anim", vec![frame("frame1", "sprite1", 10, 100)]);
    let text = anim.compile_to_asm();

    assert!(text.contains("_TEST_ANIM_ANIM:"));
    assert!(text.contains("_TEST_ANIM_FRAMES:"));
    assert!(text.contains("FCB 1")); // num_frames
}

#[test]
fn default_frame_intensity_is_full() {
    assert_eq!(default_intensity(), 127);
}

#[test]
fn compile_uses_override_name() {
    let anim = animation("walk", vec![frame("f1", "s1", 5, 127), frame("f2", "s2", 5, 127)]);
    let text = anim.compile_to_asm_with_name(Some("hero"));
    assert!(text.contains("_HERO_ANIM:"));
    assert!(text.contains("FCB 2"));
    assert!(!text.contains("_WALK_ANIM:"));
}

#[test]
fn validate_accepts_well_formed_animation() {
    let anim = animation("walk", vec![frame("f1", "s1", 5, 127)]);
    assert!(anim.validate().is_ok());
}

#[test]
fn validate_rejects_empty_animation() {
    let anim = animation("walk", Vec::new());
    assert_eq!(anim.validate(), Err("Animation must have at least one frame".to_string()));
}

#[test]
fn validate_rejects_other_versions() {
    let mut anim = animation("walk", vec![frame("f1", "s1", 5, 127)]);
    anim.version = "2.0".to_string();
    assert_eq!(anim.validate(), Err("Unsupported .vanim version: 2.0 (expected 1.0)".to_string()));
}
