use alice_font::effect::{EffectStack, MAX_EFFECTS};

#[derive(Debug, Clone, Copy, PartialEq)]
struct Color4 {
    r: f32,
    g: f32,
    b: f32,
    a: f32,
}

const BLACK: Color4 = Color4 { r: 0.0, g: 0.0, b: 0.0, a: 1.0 };

#[derive(Debug, Clone, Copy, PartialEq)]
enum TextEffect {
    Outline { color: Color4, width: f32 },
    Glow { color: Color4, radius: f32, falloff: f32 },
}

#[test]
fn test_effect_stack() {
    let mut stack = EffectStack::new();
    assert!(stack.is_empty());
    stack.push(TextEffect::Outline { color: BLACK, width: 0.05 });
    assert_eq!(stack.len(), 1);
    assert!(stack.get(0).is_some());
    assert!(stack.get(1).is_none());
}

#[test]
fn test_effect_stack_max_capacity() {
    let mut stack = EffectStack::new();
    for _ in 0..MAX_EFFECTS {
        assert!(stack.push(TextEffect::Outline { color: BLACK, width: 0.05 }));
    }
    assert!(!stack.push(TextEffect::Outline { color: BLACK, width: 0.05 }));
    assert_eq!(stack.len(), MAX_EFFECTS);
}

#[test]
fn test_effect_stack_keeps_the_order() {
    let mut stack = EffectStack::new();
    for i in 0..5u32 {
        assert!(stack.push(i * 10));
    }
    assert_eq!(stack.len(), 5);
    assert!(!stack.is_empty());
    for i in 0..5usize {
        assert_eq!(stack.get(i), Some(&(i as u32 * 10)));
    }
    assert_eq!(stack.get(5), None);
    assert_eq!(stack.get(usize::MAX), None);
}

#[test]
fn test_effect_stack_full_push_changes_nothing() {
    let mut stack = EffectStack::new();
    for i in 0..8u32 {
        assert!(stack.push(i));
    }
    assert_eq!(MAX_EFFECTS, 8);
    assert!(!stack.push(99));
    assert_eq!(stack.len(), 8);
    for i in 0..8usize {
        assert_eq!(stack.get(i), Some(&(i as u32)));
    }
    assert_eq!(stack.get(8), None);
}

#[test]
fn test_effect_stack_clear() {
    let mut stack = EffectStack::new();
    stack.push(TextEffect::Glow { color: BLACK, radius: 0.15, falloff: 2.0 });
    stack.push(TextEffect::Outline { color: BLACK, width: 0.05 });
    stack.clear();
    assert!(stack.is_empty());
    assert_eq!(stack.len(), 0);
    assert_eq!(stack.get(0), None);
    assert!(stack.push(TextEffect::Outline { color: BLACK, width: 0.1 }));
    assert_eq!(stack.get(0), Some(&TextEffect::Outline { color: BLACK, width: 0.1 }));
}

#[test]
fn test_effect_stack_default_and_clone() {
    let mut stack: EffectStack<u8> = EffectStack::default();
    assert!(stack.is_empty());
    stack.push(1);
    stack.push(2);
    let copy = stack.clone();
    stack.push(3);
    assert_eq!(copy.len(), 2);
    assert_eq!(copy.get(0), Some(&1));
    assert_eq!(copy.get(1), Some(&2));
    assert_eq!(copy.get(2), None);
    assert_eq!(stack.len(), 3);
}
