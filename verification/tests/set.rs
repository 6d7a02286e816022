use errorscript::builtins::{builtin_at, builtin_bit, BUILTIN_COUNT};
use errorscript::error::EscErrorType;
use errorscript::set::{Holding, Types};
use std::collections::HashSet;

fn builtins() -> Vec<EscErrorType> {
    (0..BUILTIN_COUNT).map(builtin_at).collect()
}

fn is_plain(value: &EscErrorType) -> bool {
    matches!(
        value.builtin_name(),
        Some("undefined" | "null" | "boolean" | "number" | "string")
    )
}

#[test]
fn builtin_bits_round_trip_and_compact_after_fallback() {
    let builtins = builtins();
    for (index, value) in builtins.iter().enumerate() {
        assert_eq!(builtin_bit(value), 1u64 << index);
        assert_eq!(
            Types::from_vec(vec![value.clone()]).plain_primitive(),
            is_plain(value)
        );
    }
    let all = Types::from_vec(builtins.clone());
    assert!(all.is_builtins());
    assert_eq!(all.to_vec(), builtins);
    assert_eq!(all.clone().drain(), builtins);
    let mut mixed = all.clone();
    let custom = EscErrorType::builtin("UnindexedBuiltin");
    mixed.insert(custom.clone());
    assert!(mixed.is_many());
    assert!(mixed.remove(&custom));
    assert_eq!(mixed, all);
    let mut joined = Types::new();
    for value in builtins.iter().rev() {
        joined.join(Types::from_vec(vec![value.clone()]));
    }
    assert_eq!(joined, all);
    mixed.retain(|value| value == &EscErrorType::unknown());
    assert_eq!(mixed, Types::from_vec(vec![EscErrorType::unknown()]));
    for value in &builtins {
        assert!(joined.remove(value));
    }
    assert!(joined.is_empty());
}

#[test]
fn inline_and_hashed_sets_match_through_mutations() {
    let values = [
        "number",
        "string",
        "unknown",
        "TypeError",
        "RangeError",
        "undefined",
        "UnindexedBuiltin",
    ]
    .map(EscErrorType::builtin);
    let mut small = Types::new();
    let mut reference = HashSet::new();
    let mut random = 17u64;
    for step in 0..2000 {
        random = random.wrapping_mul(6364136223846793005).wrapping_add(1);
        let value = values[(random >> 32) as usize % values.len()].clone();
        match step % 7 {
            0..=2 => assert_eq!(small.insert(value.clone()), reference.insert(value)),
            3 => assert_eq!(small.remove(&value), reference.remove(&value)),
            4 => {
                small.retain(|ty| ty == &value);
                reference.retain(|ty| ty == &value);
            }
            5 => {
                small.join(Types::from_vec(vec![value.clone(), EscErrorType::unknown()]));
                reference.extend([value, EscErrorType::unknown()]);
            }
            _ => {
                assert_eq!(
                    small.drain().into_iter().collect::<HashSet<_>>(),
                    std::mem::take(&mut reference)
                );
                assert!(small.is_empty());
            }
        }
        assert_eq!(small.to_vec().into_iter().collect::<HashSet<_>>(), reference);
        assert_eq!(small.plain_primitive(), reference.iter().all(is_plain));
        assert_eq!(small.len(), reference.len());
        assert_eq!(small.to_vec().len(), reference.len());
        assert_eq!(
            small,
            Types::from_vec(reference.iter().cloned().collect())
        );
        assert_eq!(
            small.clone().drain().into_iter().collect::<HashSet<_>>(),
            reference
        );
        assert!(!(small.is_many() && small.len() < 2));
    }
}

#[test]
fn singleton_unions_and_removals_remain_inline() {
    let number = EscErrorType::builtin("number");
    let string = EscErrorType::builtin("string");
    let mut set = Types::from_vec(vec![number.clone(), number.clone()]);
    assert!(set.is_builtins());
    set.insert(string.clone());
    assert!(set.is_builtins());
    assert!(set.remove(&number));
    assert_eq!(set, Types::from_vec(vec![string]));
    set.retain(|_| false);
    assert_eq!(set, Types::new());
}

#[test]
fn shared_unions_preserve_branch_isolation_and_no_op_sharing() {
    let original = Types::from_vec(vec![
        EscErrorType::builtin("UnindexedBuiltin"),
        EscErrorType::builtin("string"),
    ]);
    let mut branch = original.clone();
    assert!(!branch.insert(EscErrorType::builtin("UnindexedBuiltin")));
    assert!(!branch.remove(&EscErrorType::unknown()));
    branch.retain(|_| true);
    branch.join(original.clone());
    assert!(original.is_many());
    assert!(branch.is_many());
    assert!(original.shares_members(&branch));
    branch.insert(EscErrorType::unknown());
    assert!(!original.contains(&EscErrorType::unknown()));
    branch.remove(&EscErrorType::builtin("UnindexedBuiltin"));
    assert!(original.contains(&EscErrorType::builtin("UnindexedBuiltin")));
    assert!(branch.is_builtins());
    let mut drained = original.clone();
    assert_eq!(Types::from_vec(drained.drain()), original);
    assert!(drained.is_empty());
    assert_eq!(original.len(), 2);
}

#[test]
fn a_mixed_set_lists_each_member_once() {
    let mut set = Types::new();
    set.insert(EscErrorType::builtin("Custom"));
    set.insert(EscErrorType::builtin("number"));
    set.insert(EscErrorType::builtin("Custom"));
    assert_eq!(set.len(), 2);
    assert!(set.contains(&EscErrorType::builtin("number")));
    assert!(!set.plain_primitive());
}

#[test]
fn holding_follows_the_members() {
    let custom = EscErrorType::builtin("UnindexedBuiltin");
    let number = EscErrorType::builtin("number");
    assert_eq!(Types::new().holding(), Holding::Empty);
    assert_eq!(Types::from_vec(vec![number.clone()]).holding(), Holding::Builtins);
    assert_eq!(Types::from_vec(vec![custom.clone()]).holding(), Holding::One);
    let mut mixed = Types::from_vec(vec![custom.clone(), number.clone()]);
    assert_eq!(mixed.holding(), Holding::Many);
    assert!(mixed.is_many());
    mixed.retain(|value| value == &custom);
    assert_eq!(mixed.holding(), Holding::One);
    assert!(!mixed.is_many());
}

#[test]
fn retain_asks_about_each_member_once() {
    let mut calls = std::cell::Cell::new(0);
    let mut set = Types::from_vec(vec![
        EscErrorType::builtin("UnindexedBuiltin"),
        EscErrorType::builtin("number"),
        EscErrorType::builtin("string"),
    ]);
    set.retain(|value| {
        calls.set(calls.get() + 1);
        value != &EscErrorType::builtin("number")
    });
    assert_eq!(*calls.get_mut(), 3);
    assert_eq!(set, Types::from_vec(vec![EscErrorType::builtin("UnindexedBuiltin"), EscErrorType::builtin("string")]));
}

#[test]
fn a_changed_copy_stops_sharing() {
    let original = Types::from_vec(vec![EscErrorType::builtin("UnindexedBuiltin"), EscErrorType::builtin("number")]);
    let mut copy = original.clone();
    assert!(copy.shares_members(&original));
    copy.insert(EscErrorType::builtin("string"));
    assert!(!copy.shares_members(&original));
    assert_eq!(original.len(), 2);
    assert_eq!(copy.len(), 3);
}
