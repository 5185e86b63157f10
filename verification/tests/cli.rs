use imperium::cli::Cli;
use std::path::PathBuf;

#[test]
fn cli_carries_the_path_it_was_given() {
    let given = Cli { path: Some(PathBuf::from("/srv/data")) };
    assert_eq!(given.path, Some(PathBuf::from("/srv/data")));
    assert_eq!(Cli { path: None }.path, None);
    assert_eq!(given.clone(), given);
}
