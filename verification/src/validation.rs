//! Outcomes of checking an edited item, and lookups of items by name.
use vstd::prelude::*;
use crate::text::str_eq;

verus! {

/// One problem found with one field of an item.
#[derive(Debug, Clone, PartialEq)]
pub struct ValidationError {
    pub field_name: String,
    pub display_name: String,
    pub error: String,
}

/// A validation error as three character sequences: field, display name, message.
pub type ErrorModel = (Seq<char>, Seq<char>, Seq<char>);

impl View for ValidationError {
    type V = ErrorModel;

    open spec fn view(&self) -> ErrorModel {
        (self.field_name@, self.display_name@, self.error@)
    }
}

impl ValidationError {
    /// An error on `field_name`, shown as `display_name`, saying `error`.
    pub fn new(field_name: &str, display_name: &str, error: &str) -> (e: ValidationError)
        ensures
            e@ == (field_name@, display_name@, error@),
    {
        ValidationError {
            field_name: field_name.to_owned(),
            display_name: display_name.to_owned(),
            error: error.to_owned(),
        }
    }
}

/// Whether an item passed its checks, and if not, everything found wrong.
#[derive(Debug, Clone, PartialEq)]
pub enum ValidationResult {
    Pass,
    Fail(Vec<ValidationError>),
}

impl ValidationResult {
    /// The errors found, in the order they were found; none for a pass.
    pub open spec fn errors(&self) -> Seq<ErrorModel> {
        match self {
            ValidationResult::Pass => Seq::empty(),
            ValidationResult::Fail(v) => v@.map_values(|e: ValidationError| e@),
        }
    }

    /// A pass when no error was found, else a failure listing them.
    pub fn from_errors(errors: Vec<ValidationError>) -> (r: ValidationResult)
        ensures
            r.errors() == errors@.map_values(|e: ValidationError| e@),
            r is Pass <==> errors@.len() == 0,
    {
        if errors.len() == 0 {
            assert(errors@.map_values(|e: ValidationError| e@) =~= Seq::<ErrorModel>::empty());
            ValidationResult::Pass
        } else {
            ValidationResult::Fail(errors)
        }
    }
}

/// The errors of a check, as an outcome: a pass exactly when there are none.
pub open spec fn outcome_is(r: ValidationResult, errors: Seq<ErrorModel>) -> bool {
    r.errors() == errors && (r is Pass <==> errors.len() == 0)
}

/// Something that checks itself and reports the first problem as a message.
pub trait ValidateSelf {
    fn validate_self(&self) -> Result<(), String>;
}

/// An item that is known by a name.
pub trait Named {
    /// The item's name.
    spec fn name_spec(&self) -> Seq<char>;

    /// The item's name.
    fn get_name(&self) -> (n: String)
        ensures
            n@ == self.name_spec(),
    ;
}

/// Position of the first item called `name`, or -1 when none is.
pub open spec fn first_named<T: Named>(s: Seq<T>, name: Seq<char>) -> int
    decreases s.len(),
{
    if s.len() == 0 {
        -1
    } else if s[0].name_spec() == name {
        0
    } else {
        let r = first_named(s.drop_first(), name);
        if r < 0 {
            -1
        } else {
            r + 1
        }
    }
}

/// `first_named` finds the first item with the name, and -1 means there is none.
pub proof fn lemma_first_named<T: Named>(s: Seq<T>, name: Seq<char>)
    ensures
        -1 <= first_named(s, name) < s.len(),
        first_named(s, name) >= 0 ==> s[first_named(s, name)].name_spec() == name,
        first_named(s, name) >= 0 ==> forall|j: int|
            0 <= j < first_named(s, name) ==> s[j].name_spec() != name,
        first_named(s, name) < 0 <==> forall|j: int| 0 <= j < s.len() ==> s[j].name_spec() != name,
    decreases s.len(),
{
    if s.len() > 0 && s[0].name_spec() != name {
        lemma_first_named(s.drop_first(), name);
        let r = first_named(s.drop_first(), name);
        assert forall|j: int| 0 < j < s.len() implies s[j] == s.drop_first()[j - 1] by {}
        if r < 0 {
            assert forall|j: int| 0 <= j < s.len() implies s[j].name_spec() != name by {
                if j > 0 {
                    assert(s[j] == s.drop_first()[j - 1]);
                }
            }
        }
    }
}

/// The position of the first item called `name`, if any.
pub fn position_by_name<T: Named>(items: &Vec<T>, name: &str) -> (res: Option<usize>)
    ensures
        match res {
            Some(i) => i as int == first_named(items@, name@),
            None => first_named(items@, name@) < 0,
        },
{
    proof {
        lemma_first_named(items@, name@);
    }
    let mut i: usize = 0;
    while i < items.len()
        invariant
            i <= items@.len(),
            forall|j: int| 0 <= j < i ==> items@[j].name_spec() != name@,
            -1 <= first_named(items@, name@) < items@.len(),
            first_named(items@, name@) >= 0 ==> items@[first_named(items@, name@)].name_spec()
                == name@,
            first_named(items@, name@) >= 0 ==> forall|j: int|
                0 <= j < first_named(items@, name@) ==> items@[j].name_spec() != name@,
            first_named(items@, name@) < 0 <==> forall|j: int|
                0 <= j < items@.len() ==> items@[j].name_spec() != name@,
        decreases items@.len() - i,
    {
        let n = items[i].get_name();
        if str_eq(n.as_str(), name) {
            return Some(i);
        }
        i = i + 1;
    }
    None
}

/// No item has the asked-for name.
#[derive(Debug, Clone, PartialEq)]
pub struct NotFound {
    pub name: String,
}

/// Removes the first item called `name`, keeping the order of the others, or
/// reports that no item has that name.
pub fn delete_by_name<T: Named>(items: &mut Vec<T>, name: &str) -> (res: Result<(), NotFound>)
    ensures
        first_named(old(items)@, name@) >= 0 ==> res is Ok && final(items)@ == old(items)@.remove(
            first_named(old(items)@, name@),
        ),
        first_named(old(items)@, name@) < 0 ==> (res matches Err(e) && e.name@ == name@),
        first_named(old(items)@, name@) < 0 ==> final(items)@ == old(items)@,
{
    proof {
        lemma_first_named(old(items)@, name@);
    }
    match position_by_name(items, name) {
        Some(i) => {
            items.remove(i);
            Ok(())
        },
        None => Err(NotFound { name: name.to_owned() }),
    }
}

} // verus!
