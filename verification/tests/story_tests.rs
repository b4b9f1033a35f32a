use maplewood::story::{evaluate_story_var_condition, evaluate_substituted, is_eval_safe, substitute_story_vars, ConditionError, StoryVars};
use maplewood::text::{i32_to_string, string_from_chars};

#[test]
fn story_vars_get_after_set() {
    let mut v = StoryVars::new();
    assert_eq!(v.get("met"), None);
    v.insert("met".to_string(), 0);
    v.set("met", 3);
    assert_eq!(v.get("met"), Some(3));
    // Only variables that exist can be set.
    v.set("unknown", 5);
    assert_eq!(v.get("unknown"), None);
    v.insert("met".to_string(), 7);
    assert_eq!(v.get("met"), Some(7));
    assert_eq!(v.vars.len(), 1);
}

#[test]
fn setting_leaves_other_variables() {
    let mut v = StoryVars::new();
    v.insert("a".to_string(), 1);
    v.insert("b".to_string(), 2);
    v.set("a", 10);
    assert_eq!(v.get("b"), Some(2));
}

#[test]
fn conditions_substitute_and_evaluate() {
    let mut v = StoryVars::new();
    v.insert("panic".to_string(), 1);
    v.insert("coins".to_string(), -12);
    assert_eq!(evaluate_story_var_condition("{panic} == 1", &v), Ok(true));
    assert_eq!(evaluate_story_var_condition("{panic} == 1 && {coins} > 0", &v), Ok(false));
    assert_eq!(evaluate_story_var_condition("{coins} < -10", &v), Ok(true));
    assert_eq!(evaluate_story_var_condition("true", &v), Ok(true));
}

#[test]
fn condition_errors() {
    let mut v = StoryVars::new();
    v.insert("panic".to_string(), 1);
    assert_eq!(
        evaluate_story_var_condition("{missing} == 1", &v),
        Err(ConditionError::MissingStoryVar("missing".to_string()))
    );
    assert_eq!(evaluate_story_var_condition("{panic} +", &v), Err(ConditionError::Eval));
    assert_eq!(evaluate_story_var_condition("{panic}", &v), Err(ConditionError::Eval));
    assert_eq!(ConditionError::MissingStoryVar("k".to_string()).message(), "no story var `k`");
    assert_eq!(ConditionError::Eval.message(), "invalid boolean expression");
}

#[test]
fn substitution_of_pieces() {
    let mut v = StoryVars::new();
    v.insert("a".to_string(), 5);
    let pieces = vec!["x = ".to_string(), " and ".to_string(), "".to_string()];
    let keys = vec![Some("a".to_string()), Some("a".to_string())];
    assert_eq!(substitute_story_vars(&pieces, &keys, &v), Ok("x = 5 and 5".to_string()));
    let bad = vec![Some("a".to_string())];
    assert_eq!(substitute_story_vars(&pieces, &bad, &v), Err(ConditionError::Malformed));
    let none_key = vec![None, Some("a".to_string())];
    assert_eq!(substitute_story_vars(&pieces, &none_key, &v), Err(ConditionError::Malformed));
}

#[test]
fn integers_written_in_decimal() {
    assert_eq!(i32_to_string(0), "0");
    assert_eq!(i32_to_string(42), "42");
    assert_eq!(i32_to_string(-7), "-7");
    assert_eq!(i32_to_string(i32::MIN), "-2147483648");
    assert_eq!(i32_to_string(i32::MAX), "2147483647");
    assert_eq!(string_from_chars(&vec!['h', 'é', '!']), "hé!");
}

#[test]
fn panicking_functions_are_refused() {
    let mut v = StoryVars::new();
    v.insert("n".to_string(), 64);
    assert_eq!(evaluate_substituted("str::substring(\"é\", 0, 1) == \"a\""), Err(ConditionError::Eval));
    assert_eq!(evaluate_story_var_condition("shl(1, {n}) == 0", &v), Err(ConditionError::Eval));
    assert_eq!(evaluate_substituted("shr(1, 64) == 0"), Err(ConditionError::Eval));
    assert_eq!(evaluate_substituted("math::abs(-5) == 5"), Err(ConditionError::Eval));
    assert!(!is_eval_safe("math::abs(1) == 1"));
    assert!(is_eval_safe("1 + 2 == 3"));
    assert_eq!(evaluate_substituted("1 + 2 == 3"), Ok(true));
}
