use sonicbot_matrix::essentials::on_event::{get_essentials_on_event, invited, joined, left};
use sonicbot_matrix::essentials::on_message::{get_essentials_on_message, help, list};
use sonicbot_matrix::plugins::on_message::{choose_command, get_plugins_on_message, randfact};
use sonicbot_matrix::{EventMain, MessageMain};

#[test]
fn help_texts_are_exact() {
    assert_eq!(left::help(), "Runs on all syncs that have left rooms states");
    assert_eq!(joined::help(), "Runs on all syncs that have joined room updates.");
    assert_eq!(invited::help(), "Runs on all syncs that have invited room updates.");
    assert_eq!(
        help::help(),
        "help <command_name>\nDisplays information on what a command does and how to use it"
    );
    assert_eq!(list::help(), "list\nLists all the commands");
    assert_eq!(
        choose_command::help(),
        "choose <choices seperated by ' or ' without the quotes>\nChooses a random choice from <choices>"
    );
    assert_eq!(randfact::help(), "randfact\n Returns a random fact from http://randomfunfacts.com/");
}

#[test]
fn command_list_names_every_command() {
    assert_eq!(list::get_command_list(), vec!["help", "list", "choose", "randfact"]);
}

#[test]
fn listed_commands_have_help() {
    for name in list::get_command_list() {
        assert!(help::get_help_for_command(name).is_some());
    }
    assert_eq!(
        help::get_help_for_command("list".to_string()),
        Some("list\nLists all the commands".to_string())
    );
    assert_eq!(
        help::get_help_for_command("randfact".to_string()),
        Some("randfact\n Returns a random fact from http://randomfunfacts.com/".to_string())
    );
}

#[test]
fn unknown_command_has_no_help() {
    assert_eq!(help::get_help_for_command("nope".to_string()), None);
    assert_eq!(help::get_help_for_command("Help".to_string()), None);
    assert_eq!(help::get_help_for_command(String::new()), None);
}

#[test]
fn modules_come_in_name_order() {
    let ess = get_essentials_on_message();
    assert_eq!(ess.len(), 2);
    assert_eq!(ess[0].name, "help");
    assert!(ess[0].essential);
    assert_eq!(ess[0].main, MessageMain::Help);
    assert_eq!(ess[1].name, "list");
    assert_eq!(ess[1].main, MessageMain::List);
    let plugins = get_plugins_on_message();
    assert_eq!(plugins.len(), 2);
    assert_eq!(plugins[0].name, "choose");
    assert!(!plugins[0].essential);
    assert_eq!(plugins[0].main, MessageMain::Choose);
    assert_eq!(plugins[1].name, "randfact");
    assert_eq!(plugins[1].main, MessageMain::RandFact);
    let events = get_essentials_on_event();
    let names: Vec<String> = events.iter().map(|m| m.name.clone()).collect();
    assert_eq!(names, vec!["invited", "joined", "left"]);
    assert_eq!(events[0].main, EventMain::Invited);
    assert_eq!(events[1].main, EventMain::Joined);
    assert_eq!(events[2].main, EventMain::Left);
    assert_eq!(events[2].help_text(), "Runs on all syncs that have left rooms states");
}
