//! The domain record: a user with an identity key, a display name, an age
//! and a sex, together with the sex wire-code mapping and the conversion
//! from raw row values.

use vstd::prelude::*;
use crate::errors::AppError;

verus! {

/// The sex enumeration; exactly two values exist.
#[derive(Debug, Clone, Copy, PartialEq, Eq, Structural)]
pub enum Sex {
    Male,
    Female,
}

/// The wire code of a sex value, as a character sequence: "m" or "f".
pub open spec fn code_seq(s: Sex) -> Seq<char> {
    match s {
        Sex::Male => seq!['m'],
        Sex::Female => seq!['f'],
    }
}

/// Decoding of a wire code: total on all character sequences, `None`
/// outside the known set {"m", "f"} — never a silent default.
pub open spec fn sex_of_code(c: Seq<char>) -> Option<Sex> {
    if c == code_seq(Sex::Male) {
        Some(Sex::Male)
    } else if c == code_seq(Sex::Female) {
        Some(Sex::Female)
    } else {
        None
    }
}

impl Sex {
    /// The two-character wire code this value serializes to.
    pub fn code(&self) -> (r: &'static str)
        ensures
            r@ == code_seq(*self),
    {
        proof {
            reveal_strlit("m");
            reveal_strlit("f");
            assert("m"@ =~= code_seq(Sex::Male));
            assert("f"@ =~= code_seq(Sex::Female));
        }
        match self {
            Sex::Male => "m",
            Sex::Female => "f",
        }
    }

    /// Converts a stored wire code back into the enumeration. A code outside
    /// {"m", "f"} is a recoverable decode failure, not a default.
    pub fn from_code(c: &str) -> (r: Result<Sex, AppError>)
        ensures
            match r {
                Ok(s) => sex_of_code(c@) == Some(s),
                Err(e) => sex_of_code(c@) is None && e.message@ == "Unknown sex code"@,
            },
    {
        let n = c.unicode_len();
        if n == 1 {
            let ch = c.get_char(0);
            if ch == 'm' {
                proof {
                    assert(c@ =~= code_seq(Sex::Male));
                }
                return Ok(Sex::Male);
            }
            if ch == 'f' {
                proof {
                    assert(c@ =~= code_seq(Sex::Female));
                }
                return Ok(Sex::Female);
            }
        }
        proof {
            assert(c@ != code_seq(Sex::Male) && c@ != code_seq(Sex::Female)) by {
                if c@ == code_seq(Sex::Male) {
                    assert(c@.len() == 1 && c@[0] == 'm');
                }
                if c@ == code_seq(Sex::Female) {
                    assert(c@.len() == 1 && c@[0] == 'f');
                }
            }
        }
        Err(AppError::new("Unknown sex code".to_owned()))
    }
}

/// The sex wire-code mapping is a bijection between the enumeration and
/// the known code set: code then decode is the identity, decode then code
/// gives the code back, and every code outside {"m", "f"} is refused.
pub proof fn lemma_sex_code_round_trip(s: Sex, c: Seq<char>)
    ensures
        sex_of_code(code_seq(s)) == Some(s),
        sex_of_code(c) == Some(s) ==> code_seq(s) == c,
        sex_of_code(c) is None <==> c != code_seq(Sex::Male) && c != code_seq(Sex::Female),
{
    assert(code_seq(Sex::Male)[0] == 'm');
    assert(code_seq(Sex::Female)[0] == 'f');
    assert(code_seq(Sex::Male) != code_seq(Sex::Female));
}

/// The user record: identity key, display name, age and sex.
#[derive(Debug)]
pub struct User {
    pub id: String,
    pub name: String,
    pub age: i32,
    pub sex: Sex,
}

/// The mathematical model of a user record.
#[verifier::ext_equal]
pub ghost struct UserView {
    pub id: Seq<char>,
    pub name: Seq<char>,
    pub age: int,
    pub sex: Sex,
}

/// A model record that an executable record can hold: its age fits the
/// machine integer the record stores.
pub open spec fn user_wf(v: UserView) -> bool {
    i32::MIN <= v.age <= i32::MAX
}

impl View for User {
    type V = UserView;

    open spec fn view(&self) -> UserView {
        UserView {
            id: self.id@,
            name: self.name@,
            age: self.age as int,
            sex: self.sex,
        }
    }
}

impl Clone for User {
    fn clone(&self) -> (r: Self)
        ensures
            r@ == self@,
    {
        let r = User {
            id: self.id.clone(),
            name: self.name.clone(),
            age: self.age,
            sex: self.sex,
        };
        proof {
            assert(r@ =~= self@);
        }
        r
    }
}

impl PartialEq for User {
    fn eq(&self, other: &User) -> (r: bool) {
        self.id == other.id && self.name == other.name && self.age == other.age
            && self.sex == other.sex
    }
}

impl vstd::std_specs::cmp::PartialEqSpecImpl for User {
    open spec fn obeys_eq_spec() -> bool {
        true
    }

    open spec fn eq_spec(&self, other: &User) -> bool {
        self@ == other@
    }
}

/// Builds a record from the typed values of one stored row. The sex column
/// must hold a known wire code; anything else is a decode failure that
/// signals stored-data corruption.
pub fn user_from_columns(id: String, name: String, age: i32, sex_code: &str) -> (r: Result<
    User,
    AppError,
>)
    ensures
        match r {
            Ok(u) => sex_of_code(sex_code@) == Some(u@.sex) && u@.id == id@ && u@.name == name@
                && u@.age == age as int,
            Err(e) => sex_of_code(sex_code@) is None && e.message@ == "Unknown sex code"@,
        },
{
    match Sex::from_code(sex_code) {
        Ok(sex) => Ok(User { id, name, age, sex }),
        Err(e) => Err(e),
    }
}

} // verus!
