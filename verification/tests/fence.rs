use rw_renderer::tabs::fence::FenceTracker;

#[test]
fn test_no_fence_initially() {
    let tracker = FenceTracker::new();
    assert!(!tracker.in_fence());
}

#[test]
fn test_backtick_fence() {
    let mut tracker = FenceTracker::new();

    assert!(tracker.update("```rust"));
    assert!(tracker.in_fence());

    assert!(!tracker.update("fn main() {}"));
    assert!(tracker.in_fence());

    assert!(tracker.update("```"));
    assert!(!tracker.in_fence());
}

#[test]
fn test_tilde_fence() {
    let mut tracker = FenceTracker::new();

    assert!(tracker.update("~~~python"));
    assert!(tracker.in_fence());

    assert!(!tracker.update("print('hello')"));
    assert!(tracker.in_fence());

    assert!(tracker.update("~~~"));
    assert!(!tracker.in_fence());
}

#[test]
fn test_longer_closing_fence() {
    let mut tracker = FenceTracker::new();

    assert!(tracker.update("```"));
    assert!(tracker.in_fence());

    // Longer closing fence is valid
    assert!(tracker.update("````"));
    assert!(!tracker.in_fence());
}

#[test]
fn test_shorter_fence_not_closing() {
    let mut tracker = FenceTracker::new();

    assert!(tracker.update("````"));
    assert!(tracker.in_fence());

    // Shorter fence doesn't close
    assert!(!tracker.update("```"));
    assert!(tracker.in_fence());

    // Same length closes
    assert!(tracker.update("````"));
    assert!(!tracker.in_fence());
}

#[test]
fn test_mixed_fence_chars() {
    let mut tracker = FenceTracker::new();

    assert!(tracker.update("```"));
    assert!(tracker.in_fence());

    // Wrong char doesn't close
    assert!(!tracker.update("~~~"));
    assert!(tracker.in_fence());

    assert!(tracker.update("```"));
    assert!(!tracker.in_fence());
}

#[test]
fn test_indented_fence() {
    let mut tracker = FenceTracker::new();

    // Indented fence should be detected
    assert!(tracker.update("   ```rust"));
    assert!(tracker.in_fence());

    assert!(tracker.update("  ```"));
    assert!(!tracker.in_fence());
}

#[test]
fn test_fence_with_trailing_whitespace() {
    let mut tracker = FenceTracker::new();

    assert!(tracker.update("```  "));
    assert!(tracker.in_fence());

    assert!(tracker.update("```  "));
    assert!(!tracker.in_fence());
}

#[test]
fn test_regular_line_no_fence() {
    let mut tracker = FenceTracker::new();

    assert!(!tracker.update("This is a regular line"));
    assert!(!tracker.in_fence());

    assert!(!tracker.update("::: tabs"));
    assert!(!tracker.in_fence());
}

#[test]
fn test_two_backticks_not_fence() {
    let mut tracker = FenceTracker::new();

    assert!(!tracker.update("``inline code``"));
    assert!(!tracker.in_fence());
}

#[test]
fn test_multiple_fences() {
    let mut tracker = FenceTracker::new();

    // First fence
    assert!(tracker.update("```"));
    assert!(tracker.in_fence());
    assert!(tracker.update("```"));
    assert!(!tracker.in_fence());

    // Second fence
    assert!(tracker.update("~~~"));
    assert!(tracker.in_fence());
    assert!(tracker.update("~~~"));
    assert!(!tracker.in_fence());
}

#[test]
fn a_fence_of_the_other_character_does_not_close() {
    let mut tracker = FenceTracker::default();
    assert!(tracker.update("~~~~"));
    assert!(!tracker.update("```"));
    assert!(tracker.in_fence());
    assert!(!tracker.update("~~~"));
    assert!(tracker.update("~~~~~"));
    assert!(!tracker.in_fence());
}
