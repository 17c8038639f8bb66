use perty::modules::github::{
    card_from_capture, get_owner_repo_from_url, owner_repo_from_captures, APICardBoard, Card,
    Github, GithubError,
};

#[test]
fn get_owner_repo_from_url_ok() {
    let input = "https://github.com/dibericky/perty";
    let output = get_owner_repo_from_url(input).unwrap();
    assert_eq!(output, ("dibericky".to_owned(), "perty".to_owned()));
}

#[test]
fn get_owner_repo_from_url_missing_repo() {
    let input = "https://github.com/dibericky/";
    let error = get_owner_repo_from_url(input).err().unwrap().message();
    assert_eq!(error, "Not a valid github repository url".to_string());
}

#[test]
fn get_owner_repo_from_url_not_github() {
    let input = "https://foobar.com/dibericky/perty";
    let error = get_owner_repo_from_url(input).err().unwrap().message();
    assert_eq!(error, "Not a valid github repository url".to_string());
}

#[test]
fn cast_api_card_to_card() {
    let api_card = APICardBoard {
        project_url: "https://api.github.com/projects/14550197".to_string(),
        id: 83518444,
        note: "This is a test".to_string(),
    };
    let card: Card = Card::from_api_card(api_card).unwrap();
    assert_eq!(
        card,
        Card {
            project_id: 14550197,
            id: 83518444,
            note: "This is a test".to_string()
        }
    )
}

#[test]
fn api_card_without_project_number() {
    let api_card = APICardBoard {
        project_url: "https://api.github.com/repos/a/b".to_string(),
        id: 1,
        note: "n".to_string(),
    };
    assert_eq!(Card::from_api_card(api_card), None);
}

#[test]
fn api_card_with_project_number_too_large() {
    let api_card = APICardBoard {
        project_url: "https://api.github.com/projects/4294967296".to_string(),
        id: 1,
        note: "n".to_string(),
    };
    assert_eq!(Card::from_api_card(api_card), None);
}

#[test]
fn card_from_capture_parses_decimal() {
    let card = card_from_capture(Some("4294967295".to_string()), 7, "x".to_string());
    assert_eq!(
        card,
        Some(Card {
            project_id: 4294967295,
            id: 7,
            note: "x".to_string()
        })
    );
    let plus = card_from_capture(Some("+12".to_string()), 7, "x".to_string());
    assert_eq!(plus.unwrap().project_id, 12);
}

#[test]
fn card_from_capture_rejects_bad_text() {
    assert_eq!(card_from_capture(None, 7, "x".to_string()), None);
    assert_eq!(card_from_capture(Some("".to_string()), 7, "x".to_string()), None);
    assert_eq!(card_from_capture(Some("+".to_string()), 7, "x".to_string()), None);
    assert_eq!(card_from_capture(Some("12a".to_string()), 7, "x".to_string()), None);
    assert_eq!(
        card_from_capture(Some("4294967296".to_string()), 7, "x".to_string()),
        None
    );
}

#[test]
fn owner_repo_needs_both_captures() {
    assert_eq!(
        owner_repo_from_captures(Some("o".to_string()), Some("r".to_string())),
        Ok(("o".to_string(), "r".to_string()))
    );
    assert_eq!(
        owner_repo_from_captures(Some("o".to_string()), None),
        Err(GithubError::InvalidRepositoryUrl)
    );
    assert_eq!(
        owner_repo_from_captures(None, Some("r".to_string())),
        Err(GithubError::InvalidRepositoryUrl)
    );
}

#[test]
fn owner_repo_from_url_with_longer_path() {
    let output = get_owner_repo_from_url("see https://github.com/a-b/c.d/tree/main").unwrap();
    assert_eq!(output, ("a-b".to_owned(), "c.d".to_owned()));
}

#[test]
fn github_keeps_its_token() {
    let github = Github::new("SECRET-REDACTED".to_string());
    assert_eq!(github.token(), "SECRET-REDACTED");
}
