//! The dynamic partial-update builder: turns a sparse set of optional
//! fields into a persistence command whose clause list and bind list are
//! built in lockstep from one fixed field enumeration, with the row
//! identifier always bound last.

use vstd::prelude::*;
use crate::claims::{ascii_chars, string_from_ascii};
use crate::date_format::{spec_mysql_bytes, format_mysql_datetime};
use crate::error::AppError;
use crate::numerals::{i32_to_dec, spec_signed_dec_digits, lemma_dec_digits_are_digits};
use crate::password::{bcrypt_matches, hash_password};
use crate::user::UpdateUserDto;

verus! {

/// A partial-update command: one `<column> = ?` clause per present field,
/// and the values to bind, in the same fixed order, with the row
/// identifier's text as the final bind.
#[derive(Debug, Clone)]
pub struct UpdateCommand {
    pub clauses: Vec<String>,
    pub binds: Vec<String>,
}

/// Whether any field of the update is present, the password counted
/// through its hash.
pub open spec fn spec_update_has_fields(dto: UpdateUserDto, hashed: Option<String>) -> bool {
    dto.email is Some || hashed is Some || dto.first_name is Some || dto.last_name is Some
        || dto.passport_number is Some || dto.nationality is Some || dto.date_of_birth is Some
        || dto.contact_number is Some || dto.gender is Some
}

/// The clause list of an update, in the fixed field order.
pub open spec fn spec_update_clauses(dto: UpdateUserDto, hashed: Option<String>) -> Seq<Seq<char>> {
    let c0: Seq<Seq<char>> = if dto.email is Some {
        seq!["email = ?"@]
    } else {
        Seq::empty()
    };
    let c1: Seq<Seq<char>> = if hashed is Some {
        seq!["password = ?"@]
    } else {
        Seq::empty()
    };
    let c2: Seq<Seq<char>> = if dto.first_name is Some {
        seq!["first_name = ?"@]
    } else {
        Seq::empty()
    };
    let c3: Seq<Seq<char>> = if dto.last_name is Some {
        seq!["last_name = ?"@]
    } else {
        Seq::empty()
    };
    let c4: Seq<Seq<char>> = if dto.passport_number is Some {
        seq!["passport_number = ?"@]
    } else {
        Seq::empty()
    };
    let c5: Seq<Seq<char>> = if dto.nationality is Some {
        seq!["nationality = ?"@]
    } else {
        Seq::empty()
    };
    let c6: Seq<Seq<char>> = if dto.date_of_birth is Some {
        seq!["date_of_birth = ?"@]
    } else {
        Seq::empty()
    };
    let c7: Seq<Seq<char>> = if dto.contact_number is Some {
        seq!["contact_number = ?"@]
    } else {
        Seq::empty()
    };
    let c8: Seq<Seq<char>> = if dto.gender is Some {
        seq!["gender = ?"@]
    } else {
        Seq::empty()
    };
    c0 + c1 + c2 + c3 + c4 + c5 + c6 + c7 + c8
}

/// The bind values of an update, before the identifier, in the same fixed
/// field order as the clauses.
pub open spec fn spec_update_binds(dto: UpdateUserDto, hashed: Option<String>) -> Seq<Seq<char>> {
    let b0: Seq<Seq<char>> = if dto.email is Some {
        seq![dto.email->0@]
    } else {
        Seq::empty()
    };
    let b1: Seq<Seq<char>> = if hashed is Some {
        seq![hashed->0@]
    } else {
        Seq::empty()
    };
    let b2: Seq<Seq<char>> = if dto.first_name is Some {
        seq![dto.first_name->0@]
    } else {
        Seq::empty()
    };
    let b3: Seq<Seq<char>> = if dto.last_name is Some {
        seq![dto.last_name->0@]
    } else {
        Seq::empty()
    };
    let b4: Seq<Seq<char>> = if dto.passport_number is Some {
        seq![dto.passport_number->0@]
    } else {
        Seq::empty()
    };
    let b5: Seq<Seq<char>> = if dto.nationality is Some {
        seq![dto.nationality->0@]
    } else {
        Seq::empty()
    };
    let b6: Seq<Seq<char>> = if dto.date_of_birth is Some {
        seq![ascii_chars(spec_mysql_bytes(dto.date_of_birth->0))]
    } else {
        Seq::empty()
    };
    let b7: Seq<Seq<char>> = if dto.contact_number is Some {
        seq![dto.contact_number->0@]
    } else {
        Seq::empty()
    };
    let b8: Seq<Seq<char>> = if dto.gender is Some {
        seq![dto.gender->0@]
    } else {
        Seq::empty()
    };
    b0 + b1 + b2 + b3 + b4 + b5 + b6 + b7 + b8
}

/// Appends one clause/value pair, keeping the two lists in lockstep.
fn push_pair(clauses: &mut Vec<String>, binds: &mut Vec<String>, clause: &'static str, value:
    String)
    ensures
        final(clauses).deep_view() == old(clauses).deep_view() + seq![clause@],
        final(binds).deep_view() == old(binds).deep_view() + seq![value@],
        final(clauses)@.len() == old(clauses)@.len() + 1,
        final(binds)@.len() == old(binds)@.len() + 1,
{
    clauses.push(clause.to_owned());
    binds.push(value);
    proof {
        assert(clauses.deep_view() =~= old(clauses).deep_view() + seq![clause@]);
        assert(binds.deep_view() =~= old(binds).deep_view() + seq![value@]);
    }
}

/// Appends the first three fields of the fixed order: email, password
/// (already hashed), first name.
fn push_fields_a(dto: &UpdateUserDto, hashed: Option<String>, clauses: &mut Vec<String>, binds:
    &mut Vec<String>)
    ensures
        final(clauses).deep_view() == old(clauses).deep_view() + (if dto.email is Some {
            seq!["email = ?"@]
        } else {
            Seq::<Seq<char>>::empty()
        }) + (if hashed is Some {
            seq!["password = ?"@]
        } else {
            Seq::<Seq<char>>::empty()
        }) + (if dto.first_name is Some {
            seq!["first_name = ?"@]
        } else {
            Seq::<Seq<char>>::empty()
        }),
        final(binds).deep_view() == old(binds).deep_view() + (if dto.email is Some {
            seq![dto.email->0@]
        } else {
            Seq::<Seq<char>>::empty()
        }) + (if hashed is Some {
            seq![hashed->0@]
        } else {
            Seq::<Seq<char>>::empty()
        }) + (if dto.first_name is Some {
            seq![dto.first_name->0@]
        } else {
            Seq::<Seq<char>>::empty()
        }),
        final(clauses)@.len() - old(clauses)@.len() == final(binds)@.len() - old(binds)@.len(),
        final(clauses)@.len() > old(clauses)@.len() <==> (dto.email is Some || hashed is Some
            || dto.first_name is Some),
{
    if let Some(e) = &dto.email {
        push_pair(clauses, binds, "email = ?", e.clone());
    }
    if let Some(h) = hashed {
        push_pair(clauses, binds, "password = ?", h);
    }
    if let Some(v) = &dto.first_name {
        push_pair(clauses, binds, "first_name = ?", v.clone());
    }
}

/// Appends the middle three fields: last name, passport number,
/// nationality.
fn push_fields_b(dto: &UpdateUserDto, clauses: &mut Vec<String>, binds: &mut Vec<String>)
    ensures
        final(clauses).deep_view() == old(clauses).deep_view() + (if dto.last_name is Some {
            seq!["last_name = ?"@]
        } else {
            Seq::<Seq<char>>::empty()
        }) + (if dto.passport_number is Some {
            seq!["passport_number = ?"@]
        } else {
            Seq::<Seq<char>>::empty()
        }) + (if dto.nationality is Some {
            seq!["nationality = ?"@]
        } else {
            Seq::<Seq<char>>::empty()
        }),
        final(binds).deep_view() == old(binds).deep_view() + (if dto.last_name is Some {
            seq![dto.last_name->0@]
        } else {
            Seq::<Seq<char>>::empty()
        }) + (if dto.passport_number is Some {
            seq![dto.passport_number->0@]
        } else {
            Seq::<Seq<char>>::empty()
        }) + (if dto.nationality is Some {
            seq![dto.nationality->0@]
        } else {
            Seq::<Seq<char>>::empty()
        }),
        final(clauses)@.len() - old(clauses)@.len() == final(binds)@.len() - old(binds)@.len(),
        final(clauses)@.len() > old(clauses)@.len() <==> (dto.last_name is Some
            || dto.passport_number is Some || dto.nationality is Some),
{
    if let Some(v) = &dto.last_name {
        push_pair(clauses, binds, "last_name = ?", v.clone());
    }
    if let Some(v) = &dto.passport_number {
        push_pair(clauses, binds, "passport_number = ?", v.clone());
    }
    if let Some(v) = &dto.nationality {
        push_pair(clauses, binds, "nationality = ?", v.clone());
    }
}

/// Appends the last three fields: date of birth (bound in the storage
/// datetime form), contact number, gender.
fn push_fields_c(dto: &UpdateUserDto, clauses: &mut Vec<String>, binds: &mut Vec<String>)
    ensures
        final(clauses).deep_view() == old(clauses).deep_view() + (if dto.date_of_birth is Some {
            seq!["date_of_birth = ?"@]
        } else {
            Seq::<Seq<char>>::empty()
        }) + (if dto.contact_number is Some {
            seq!["contact_number = ?"@]
        } else {
            Seq::<Seq<char>>::empty()
        }) + (if dto.gender is Some {
            seq!["gender = ?"@]
        } else {
            Seq::<Seq<char>>::empty()
        }),
        final(binds).deep_view() == old(binds).deep_view() + (if dto.date_of_birth is Some {
            seq![ascii_chars(spec_mysql_bytes(dto.date_of_birth->0))]
        } else {
            Seq::<Seq<char>>::empty()
        }) + (if dto.contact_number is Some {
            seq![dto.contact_number->0@]
        } else {
            Seq::<Seq<char>>::empty()
        }) + (if dto.gender is Some {
            seq![dto.gender->0@]
        } else {
            Seq::<Seq<char>>::empty()
        }),
        final(clauses)@.len() - old(clauses)@.len() == final(binds)@.len() - old(binds)@.len(),
        final(clauses)@.len() > old(clauses)@.len() <==> (dto.date_of_birth is Some
            || dto.contact_number is Some || dto.gender is Some),
{
    if let Some(v) = &dto.date_of_birth {
        push_pair(clauses, binds, "date_of_birth = ?", format_mysql_datetime(v));
    }
    if let Some(v) = &dto.contact_number {
        push_pair(clauses, binds, "contact_number = ?", v.clone());
    }
    if let Some(v) = &dto.gender {
        push_pair(clauses, binds, "gender = ?", v.clone());
    }
}

/// Builds the update command for row `id` from the present fields and an
/// already-hashed password. With no present field there is no command: the
/// caller reports that no rows were affected without issuing a write.
/// Otherwise clause `k` and bind `k` always belong to the same field, and
/// the identifier's text is the one extra, final bind.
#[verifier::rlimit(100)]
pub fn build_update_command(id: i32, dto: &UpdateUserDto, hashed_password: Option<String>) -> (r:
    Option<UpdateCommand>)
    ensures
        r is Some <==> spec_update_has_fields(*dto, hashed_password),
        r matches Some(cmd) ==> cmd.clauses.deep_view() == spec_update_clauses(
            *dto,
            hashed_password,
        ) && cmd.binds.deep_view() == spec_update_binds(*dto, hashed_password) + seq![
            ascii_chars(spec_signed_dec_digits(id as int)),
        ] && cmd.binds@.len() == cmd.clauses@.len() + 1,
{
    let ghost hp = hashed_password;
    let mut clauses: Vec<String> = Vec::new();
    let mut binds: Vec<String> = Vec::new();
    push_fields_a(dto, hashed_password, &mut clauses, &mut binds);
    push_fields_b(dto, &mut clauses, &mut binds);
    push_fields_c(dto, &mut clauses, &mut binds);
    proof {
        assert(Seq::<Seq<char>>::empty() + (if dto.email is Some {
            seq!["email = ?"@]
        } else {
            Seq::<Seq<char>>::empty()
        }) =~= (if dto.email is Some {
            seq!["email = ?"@]
        } else {
            Seq::<Seq<char>>::empty()
        }));
        assert(Seq::<Seq<char>>::empty() + (if dto.email is Some {
            seq![dto.email->0@]
        } else {
            Seq::<Seq<char>>::empty()
        }) =~= (if dto.email is Some {
            seq![dto.email->0@]
        } else {
            Seq::<Seq<char>>::empty()
        }));
        assert(clauses.deep_view() == spec_update_clauses(*dto, hp));
        assert(binds.deep_view() == spec_update_binds(*dto, hp));
    }
    if clauses.len() == 0 {
        return None;
    }
    let idv = i32_to_dec(id);
    proof {
        lemma_dec_digits_are_digits(
            if id < 0 {
                (-(id as int)) as nat
            } else {
                id as nat
            },
        );
        assert(forall|i: int| 0 <= i < idv@.len() ==> idv@[i] < 128);
    }
    let id_text = string_from_ascii(idv);
    binds.push(id_text);
    let cmd = UpdateCommand { clauses, binds };
    proof {
        assert(cmd.binds.deep_view() =~= spec_update_binds(*dto, hp) + seq![
            ascii_chars(spec_signed_dec_digits(id as int)),
        ]);
    }
    Some(cmd)
}

/// Prepares the update for row `id` from a raw request payload: a present
/// plaintext password is hashed before it joins the binds, so the command
/// never carries the raw secret; the other fields pass through. A hashing
/// failure surfaces as an internal error.
pub fn prepare_user_update(id: i32, dto: &UpdateUserDto) -> (r: Result<
    Option<UpdateCommand>,
    AppError,
>)
    ensures
        r matches Err(e) ==> dto.password is Some && e matches AppError::InternalError(_),
        r matches Ok(o) ==> (o is None <==> !spec_update_has_fields(
            *dto,
            if dto.password is Some {
                Some(dto.password->0)
            } else {
                None
            },
        )),
        r matches Ok(Some(cmd)) ==> exists|hp: Option<String>|
            {
                &&& #[trigger] spec_update_clauses(*dto, hp) == cmd.clauses.deep_view()
                &&& (hp is Some <==> dto.password is Some)
                &&& (dto.password matches Some(p) ==> (hp matches Some(h) ==> bcrypt_matches(
                    p@,
                    h@,
                ) && h@.len() == 60))
                &&& cmd.binds.deep_view() == spec_update_binds(*dto, hp) + seq![
                    ascii_chars(spec_signed_dec_digits(id as int)),
                ]
                &&& cmd.binds@.len() == cmd.clauses@.len() + 1
            },
{
    let hashed: Option<String> = match &dto.password {
        Some(p) => match hash_password(p.as_str()) {
            Ok(h) => Some(h),
            Err(e) => {
                return Err(e);
            },
        },
        None => None,
    };
    let ghost hp = hashed;
    let r = build_update_command(id, dto, hashed);
    proof {
        match &r {
            Some(cmd) => {
                assert(spec_update_clauses(*dto, hp) == cmd.clauses.deep_view());
                assert(hp is Some <==> dto.password is Some);
                assert(cmd.binds.deep_view() == spec_update_binds(*dto, hp) + seq![
                    ascii_chars(spec_signed_dec_digits(id as int)),
                ]);
                assert(cmd.binds@.len() == cmd.clauses@.len() + 1);
            },
            None => {},
        }
        assert(spec_update_has_fields(
            *dto,
            if dto.password is Some {
                Some(dto.password->0)
            } else {
                None
            },
        ) == spec_update_has_fields(*dto, hp));
    }
    Ok(r)
}

} // verus!
