use std::sync::Arc;

use vortex_dict::matcher::{ArrayParts, ArrayRef, Matcher, ParentRef};

fn parts(encoding: &str, len: usize) -> ArrayParts {
    ArrayParts {
        encoding: encoding.to_string(),
        len,
    }
}

fn array(encoding: &str, len: usize) -> ArrayRef {
    ArrayRef { parts: Arc::new(parts(encoding, len)) }
}

fn parts_of<'a>(parent: &'a ParentRef<'_>) -> &'a ArrayParts {
    match parent {
        ParentRef::Array(array) => &array.parts,
        ParentRef::Parts(parts) => parts,
    }
}

/// Matches dictionaries, and goes by its matches to say so.
struct Dict;

impl Matcher for Dict {
    type RefMatch<'a> = &'a ArrayRef;
    type ParentMatch<'a> = usize;

    fn try_match<'a>(parent: &'a ParentRef<'_>) -> Option<usize> {
        let parts = parts_of(parent);
        (parts.encoding == "vortex.dict").then_some(parts.len)
    }

    fn try_match_ref(array: &ArrayRef) -> Option<&ArrayRef> {
        (array.parts.encoding == "vortex.dict").then_some(array)
    }
}

/// Matches everything, and has a cheaper way to say so.
struct Any;

impl Matcher for Any {
    type RefMatch<'a> = &'a ArrayRef;
    type ParentMatch<'a> = &'a ArrayParts;

    fn matches(_parent: &ParentRef<'_>) -> bool {
        true
    }

    fn try_match<'a>(parent: &'a ParentRef<'_>) -> Option<&'a ArrayParts> {
        Some(parts_of(parent))
    }

    fn matches_ref(_array: &ArrayRef) -> bool {
        true
    }

    fn try_match_ref(array: &ArrayRef) -> Option<&ArrayRef> {
        Some(array)
    }
}

#[test]
fn a_parent_matches_where_there_is_a_match() {
    let dict = parts("vortex.dict", 3);
    let flat = parts("vortex.flat", 4);
    assert!(Dict::matches(&ParentRef::Parts(&dict)));
    assert!(!Dict::matches(&ParentRef::Parts(&flat)));
    assert_eq!(Dict::try_match(&ParentRef::Parts(&dict)), Some(3));
    assert_eq!(Dict::try_match(&ParentRef::Parts(&flat)), None);
}

#[test]
fn an_array_matches_where_there_is_a_match() {
    let dict = array("vortex.dict", 3);
    let flat = array("vortex.flat", 4);
    assert!(Dict::matches_ref(&dict));
    assert!(!Dict::matches_ref(&flat));
    assert_eq!(Dict::try_match_ref(&dict), Some(&dict));
    assert_eq!(Dict::try_match_ref(&flat), None);
    assert!(Dict::matches(&ParentRef::Array(&dict)));
    assert!(!Dict::matches(&ParentRef::Array(&flat)));
}

#[test]
fn a_cheaper_check_can_stand_in() {
    let flat = array("vortex.flat", 4);
    assert!(Any::matches_ref(&flat));
    assert!(Any::matches(&ParentRef::Array(&flat)));
    assert_eq!(Any::try_match_ref(&flat), Some(&flat));
    assert!(Any::try_match(&ParentRef::Array(&flat)).is_some());
}
