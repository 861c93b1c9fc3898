use airline_api::date_format::DateTimeUtc;
use airline_api::update::{build_update_command, prepare_user_update};
use airline_api::user::UpdateUserDto;

fn empty_dto() -> UpdateUserDto {
    UpdateUserDto {
        email: None,
        password: None,
        first_name: None,
        last_name: None,
        passport_number: None,
        nationality: None,
        date_of_birth: None,
        contact_number: None,
        gender: None,
    }
}

#[test]
fn zero_present_fields_issue_no_command() {
    let dto = empty_dto();
    assert!(build_update_command(7, &dto, None).is_none());
    assert!(prepare_user_update(7, &dto).unwrap().is_none());
}

#[test]
fn single_field_binds_value_then_identifier() {
    let mut dto = empty_dto();
    dto.first_name = Some("A".to_string());
    let cmd = build_update_command(7, &dto, None).unwrap();
    assert_eq!(cmd.clauses, vec!["first_name = ?".to_string()]);
    assert_eq!(cmd.binds, vec!["A".to_string(), "7".to_string()]);
}

#[test]
fn clause_and_bind_order_follows_the_fixed_field_enumeration() {
    let mut dto = empty_dto();
    dto.gender = Some("f".to_string());
    dto.email = Some("a@b.c".to_string());
    dto.nationality = Some("GB".to_string());
    let cmd = build_update_command(12, &dto, None).unwrap();
    assert_eq!(
        cmd.clauses,
        vec![
            "email = ?".to_string(),
            "nationality = ?".to_string(),
            "gender = ?".to_string()
        ]
    );
    assert_eq!(
        cmd.binds,
        vec![
            "a@b.c".to_string(),
            "GB".to_string(),
            "f".to_string(),
            "12".to_string()
        ]
    );
}

#[test]
fn date_of_birth_is_bound_in_storage_form() {
    let mut dto = empty_dto();
    dto.date_of_birth = Some(DateTimeUtc {
        year: 1999,
        month: 12,
        day: 31,
        hour: 0,
        minute: 0,
        second: 0,
    });
    let cmd = build_update_command(1, &dto, None).unwrap();
    assert_eq!(cmd.clauses, vec!["date_of_birth = ?".to_string()]);
    assert_eq!(
        cmd.binds,
        vec!["1999-12-31 00:00:00".to_string(), "1".to_string()]
    );
}

#[test]
fn password_is_hashed_before_it_joins_the_binds() {
    let mut dto = empty_dto();
    dto.password = Some("hunter2".to_string());
    let cmd = prepare_user_update(5, &dto).unwrap().unwrap();
    assert_eq!(cmd.clauses, vec!["password = ?".to_string()]);
    assert_eq!(cmd.binds.len(), 2);
    let bound = &cmd.binds[0];
    assert_ne!(bound, "hunter2");
    assert_eq!(bound.len(), 60);
    assert!(bound.starts_with("$2"));
    assert!(bcrypt::verify("hunter2", bound).unwrap());
    assert_eq!(cmd.binds[1], "5");
}

#[test]
fn lockstep_invariant_holds_for_every_subset() {
    let mut dto = empty_dto();
    dto.email = Some("x@y.z".to_string());
    dto.last_name = Some("Doe".to_string());
    dto.contact_number = Some("555".to_string());
    let cmd = build_update_command(-3, &dto, None).unwrap();
    assert_eq!(cmd.binds.len(), cmd.clauses.len() + 1);
    assert_eq!(cmd.binds.last().unwrap(), "-3");
}
