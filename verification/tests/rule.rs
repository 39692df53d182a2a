use cssparser::SourceLocation;
use keyframes::animation::{KeyframesAnimation, VendorPrefix};
use keyframes::css::CssFragment;
use keyframes::declaration_block::PropertyDeclarationBlock;
use keyframes::keyframe::Keyframe;
use keyframes::name::KeyframesName;
use keyframes::percentage::KeyframePercentage;
use keyframes::properties::{DeclaredValue, Importance, LonghandId, PropertyDeclaration};
use keyframes::rule::KeyframesRule;
use keyframes::selector::KeyframeSelector;
use keyframes::shared_lock::{Locked, SharedRwLock};
use std::sync::Arc;

fn percent(value: f32) -> KeyframePercentage {
    KeyframePercentage::new(value.to_bits())
}

fn width(css: &str) -> PropertyDeclaration {
    PropertyDeclaration {
        id: LonghandId::Other(1),
        animatable: true,
        value: DeclaredValue::Specified,
        name: "width".to_string(),
        css: css.to_string(),
    }
}

fn keyframe(
    lock: &SharedRwLock,
    percentages: &[f32],
    declarations: Vec<PropertyDeclaration>,
) -> Arc<Locked<Keyframe>> {
    let mut block = PropertyDeclarationBlock::new();
    for declaration in declarations {
        block.push(declaration, Importance::Normal);
    }
    let selector = KeyframeSelector::new_for_unit_testing(
        percentages.iter().map(|value| percent(*value)).collect(),
    );
    Arc::new(lock.wrap(Keyframe { selector, block: Arc::new(lock.wrap(block)) }))
}

fn rule(name: KeyframesName, keyframes: Vec<Arc<Locked<Keyframe>>>) -> KeyframesRule {
    KeyframesRule {
        name,
        keyframes,
        vendor_prefix: Some(VendorPrefix::Moz),
        source_location: SourceLocation { line: 3, column: 7 },
    }
}

fn text(text: &str) -> CssFragment {
    CssFragment::Text(text.to_string())
}

fn render(fragments: &[CssFragment]) -> String {
    fragments
        .iter()
        .map(|fragment| match fragment {
            CssFragment::Text(text) => text.clone(),
            CssFragment::Percentage(percentage) => {
                format!("{}%", f32::from_bits(percentage.0) * 100.0)
            }
        })
        .collect()
}

#[test]
fn find_rule_finds_the_exact_selector() {
    let lock = SharedRwLock::new(1);
    let guard = lock.read();
    let rule = rule(
        KeyframesName::Ident("a".to_string()),
        vec![
            keyframe(&lock, &[0.0], vec![]),
            keyframe(&lock, &[0.5], vec![]),
            keyframe(&lock, &[0.5, 0.75], vec![]),
            keyframe(&lock, &[1.0], vec![]),
        ],
    );
    assert_eq!(rule.find_rule(&guard, "50%"), Some(1));
    assert_eq!(rule.find_rule(&guard, "50%, 75%"), Some(2));
    assert_eq!(rule.find_rule(&guard, " 50% , 75.0% "), Some(2));
    assert_eq!(rule.find_rule(&guard, "75%, 50%"), None);
    assert_eq!(rule.find_rule(&guard, "from"), Some(0));
    assert_eq!(rule.find_rule(&guard, "to"), Some(3));
    assert_eq!(rule.find_rule(&guard, "100%"), Some(3));
    assert_eq!(rule.find_rule(&guard, "25%"), None);
}

#[test]
fn find_rule_finds_the_later_of_two() {
    let lock = SharedRwLock::new(1);
    let guard = lock.read();
    let rule = rule(
        KeyframesName::Ident("a".to_string()),
        vec![keyframe(&lock, &[0.5], vec![]), keyframe(&lock, &[0.5], vec![])],
    );
    assert_eq!(rule.find_rule(&guard, "50%"), Some(1));
}

#[test]
fn find_rule_finds_nothing_for_what_is_no_selector() {
    let lock = SharedRwLock::new(1);
    let guard = lock.read();
    let rule = rule(KeyframesName::Ident("a".to_string()), vec![keyframe(&lock, &[0.5], vec![])]);
    assert_eq!(rule.find_rule(&guard, ""), None);
    assert_eq!(rule.find_rule(&guard, "50"), None);
    assert_eq!(rule.find_rule(&guard, "50%,"), None);
    assert_eq!(rule.find_rule(&guard, "150%"), None);
    assert_eq!(rule.find_rule(&guard, "50% { }"), None);
    let empty = self::rule(KeyframesName::Ident("a".to_string()), vec![]);
    assert_eq!(empty.find_rule(&guard, "50%"), None);
}

#[test]
fn a_rule_is_written_with_each_keyframe_on_its_line() {
    let lock = SharedRwLock::new(1);
    let guard = lock.read();
    let rule = rule(
        KeyframesName::Ident("slide".to_string()),
        vec![
            keyframe(&lock, &[0.0, 0.125], vec![width("10px")]),
            keyframe(&lock, &[1.0], vec![]),
        ],
    );
    let mut css = Vec::new();
    rule.to_css(&guard, &mut css);
    assert_eq!(
        css,
        vec![
            text("@keyframes "),
            text("slide"),
            text(" {"),
            text("\n"),
            CssFragment::Percentage(percent(0.0)),
            text(", "),
            CssFragment::Percentage(percent(0.125)),
            text(" { "),
            text("width: 10px;"),
            text(" }"),
            text("\n"),
            CssFragment::Percentage(percent(1.0)),
            text(" { "),
            text(""),
            text(" }"),
            text("\n}"),
        ]
    );
    assert_eq!(render(&css), "@keyframes slide {\n0%, 12.5% { width: 10px; }\n100% {  }\n}");
}

#[test]
fn a_rule_without_keyframes_is_written_on_two_lines() {
    let lock = SharedRwLock::new(1);
    let guard = lock.read();
    let rule = rule(KeyframesName::QuotedString("a \"b\"".to_string()), vec![]);
    let mut css = vec![text("/* before */")];
    rule.to_css(&guard, &mut css);
    assert_eq!(render(&css), "/* before */@keyframes \"a \\\"b\\\"\" {\n}");
}

#[test]
fn a_name_is_written_with_its_escapes() {
    let written = |name: KeyframesName| {
        let mut css = Vec::new();
        name.to_css(&mut css);
        css
    };
    assert_eq!(written(KeyframesName::Ident("fade-in".to_string())), vec![text("fade-in")]);
    assert_eq!(written(KeyframesName::Ident("1st".to_string())), vec![text("\\31 st")]);
    assert_eq!(written(KeyframesName::Ident("a b".to_string())), vec![text("a\\ b")]);
    assert_eq!(written(KeyframesName::QuotedString("a b".to_string())), vec![text("\"a b\"")]);
    assert_eq!(
        written(KeyframesName::QuotedString("q\"\\".to_string())),
        vec![text("\"q\\\"\\\\\"")]
    );
}

#[test]
fn a_keyframe_is_written_with_its_block_between_braces() {
    let lock = SharedRwLock::new(1);
    let guard = lock.read();
    let keyframe = keyframe(&lock, &[0.5], vec![width("1px"), width("2px")]);
    let mut css = Vec::new();
    keyframe.read_with(&guard).to_css(&guard, &mut css);
    assert_eq!(render(&css), "50% { width: 2px; }");
    let mut selector = Vec::new();
    KeyframeSelector::new_for_unit_testing(vec![percent(1.0), percent(0.0), percent(1.0)])
        .to_css(&mut selector);
    assert_eq!(render(&selector), "100%, 0%, 100%");
}

#[test]
fn a_deep_clone_has_the_same_values_under_the_other_lock() {
    let lock = SharedRwLock::new(1);
    let guard = lock.read();
    let mut other = SharedRwLock::new(2);
    let source = rule(
        KeyframesName::Ident("slide".to_string()),
        vec![
            keyframe(&lock, &[0.0, 0.5], vec![width("10px")]),
            keyframe(&lock, &[1.0], vec![width("20px")]),
        ],
    );
    let mut copy = source.deep_clone_with_lock(&other, &guard);
    assert_eq!(copy.name, source.name);
    assert_eq!(copy.vendor_prefix, source.vendor_prefix);
    assert_eq!(copy.source_location, source.source_location);
    assert_eq!(copy.keyframes.len(), 2);
    {
        let other_guard = other.read();
        let mut before = Vec::new();
        source.to_css(&guard, &mut before);
        let mut after = Vec::new();
        copy.to_css(&other_guard, &mut after);
        assert_eq!(before, after);
        for (a, b) in source.keyframes.iter().zip(copy.keyframes.iter()) {
            assert!(!Arc::ptr_eq(a, b));
            assert!(a.is_under(&guard) && !a.is_under(&other_guard));
            assert!(b.is_under(&other_guard) && !b.is_under(&guard));
            let (a, b) = (a.read_with(&guard), b.read_with(&other_guard));
            assert_eq!(a.selector, b.selector);
            assert!(!Arc::ptr_eq(&a.block, &b.block));
            assert!(b.block.is_under(&other_guard));
        }
        let animation = KeyframesAnimation::from_keyframes(&copy.keyframes, None, &other_guard);
        assert_eq!(animation.steps.len(), 3);
    }

    // The copy shares nothing with the rule it was made from: each of its
    // keyframes has one owner, and changing one leaves the other rule as
    // it was.
    let mut write = other.write();
    let first = Arc::get_mut(&mut copy.keyframes[0]).expect("a keyframe of its own");
    let mut changed = PropertyDeclarationBlock::new();
    changed.push(width("99px"), Importance::Normal);
    let new_keyframe = Keyframe {
        selector: KeyframeSelector::new_for_unit_testing(vec![percent(0.25)]),
        block: Arc::new(SharedRwLock::new(2).wrap(changed)),
    };
    first.write_with(&mut write, new_keyframe);
    drop(write);
    let other_guard = other.read();
    let mut after = Vec::new();
    copy.to_css(&other_guard, &mut after);
    assert_eq!(render(&after), "@keyframes slide {\n25% { width: 99px; }\n100% { width: 20px; }\n}");
    let mut unchanged = Vec::new();
    source.to_css(&guard, &mut unchanged);
    assert_eq!(
        render(&unchanged),
        "@keyframes slide {\n0%, 50% { width: 10px; }\n100% { width: 20px; }\n}"
    );
    assert_eq!(copy.find_rule(&other_guard, "25%"), Some(0));
    assert_eq!(source.find_rule(&guard, "25%"), None);
}
