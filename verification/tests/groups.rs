use rusty_hue_controller::errors::GroupError;
use rusty_hue_controller::groups::open_session;
use rusty_hue_controller::groups::power_command;
use rusty_hue_controller::groups::toggle_command;
use rusty_hue_controller::groups::Group;
use rusty_hue_controller::groups::GroupCommand;
use rusty_hue_controller::BridgeInfo;

fn group(id: usize, name: &str, all_on: bool) -> Group {
    Group { id, name: String::from(name), all_on }
}

fn apply(groups: &mut Vec<Group>, c: GroupCommand) {
    for g in groups.iter_mut() {
        if g.id == c.group_id {
            g.all_on = c.on;
        }
    }
}

#[test]
fn toggle_of_lit_study_turns_it_off() {
    let mut groups = vec![group(4, "Study", true), group(7, "Porch", false)];
    let c = toggle_command(&groups, "Study").unwrap();
    assert_eq!(c, GroupCommand { group_id: 4, on: false });
    apply(&mut groups, c);
    assert!(!groups[0].all_on);
    // the other group is untouched
    assert_eq!(groups[1].id, 7);
    assert!(!groups[1].all_on);
}

#[test]
fn toggle_of_unlit_group_turns_it_on() {
    let groups = vec![group(4, "Study", false)];
    let c = toggle_command(&groups, "Study").unwrap();
    assert_eq!(c, GroupCommand { group_id: 4, on: true });
}

#[test]
fn toggle_of_missing_group_is_not_found() {
    let groups = vec![group(4, "Study", true), group(7, "Porch", false)];
    let r = toggle_command(&groups, "Kitchen");
    assert_eq!(r, Err(GroupError::NotFound));
}

#[test]
fn toggle_twice_restores_original_state() {
    let mut groups = vec![group(1, "Hall", true), group(2, "Study", false), group(3, "Porch", true)];
    let c1 = toggle_command(&groups, "Study").unwrap();
    apply(&mut groups, c1);
    assert!(groups[1].all_on);
    let c2 = toggle_command(&groups, "Study").unwrap();
    apply(&mut groups, c2);
    assert!(!groups[1].all_on);
    assert!(groups[0].all_on);
    assert!(groups[2].all_on);
}

#[test]
fn duplicate_names_take_the_first_group() {
    let groups = vec![group(10, "Study", true), group(11, "Study", false)];
    let c = toggle_command(&groups, "Study").unwrap();
    assert_eq!(c, GroupCommand { group_id: 10, on: false });
}

#[test]
fn power_commands_are_unconditional() {
    let groups = vec![group(4, "Study", true)];
    let on = power_command(&groups, "Study", true).unwrap();
    assert_eq!(on, GroupCommand { group_id: 4, on: true });
    let off = power_command(&groups, "Study", false).unwrap();
    assert_eq!(off, GroupCommand { group_id: 4, on: false });
    assert_eq!(power_command(&groups, "Kitchen", true), Err(GroupError::NotFound));
}

#[test]
fn session_copies_the_credential() {
    let info = BridgeInfo {
        ip_addr: String::from("192.168.1.20"),
        client_token: String::from("tok"),
    };
    let s = open_session(&info);
    assert_eq!(s.ip_addr, "192.168.1.20");
    assert_eq!(s.client_token, "tok");
}
