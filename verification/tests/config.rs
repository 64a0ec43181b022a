use bangs::bang::{Bang, BangMetadata};

fn mock_bang() -> Bang {
    Bang {
        url: "https://duckduckgo.com/?q={{{s}}}".to_string(),
        title: "Duckduckgo".to_string(),
        trigger: "ddg".to_string(),
        category: "Web".to_string(),
        sub_category: "Search".to_string(),
        relevance: 0,
        metadata: BangMetadata {
            favicon: Some("https://imgs.search.brave.com/keBhPmRqAbkFJbssC8z36MLAvxORzMIgUfRTzbAJhis/rs:fit:32:32:1/g:ce/aHR0cDovL2Zhdmlj/b25zLnNlYXJjaC5i/cmF2ZS5jb20vaWNv/bnMvZTUxYTE2NmI0/MTNjOGYzMjMwMjk3/MGNkNTA5MjhkODYx/MGVkZTJhMzFkYTQ3/MGVlODY2M2I2OGU1/ODZkNGQyMS9kdWNr/ZHVja2dvLmNvbS8".to_string()),
            hostname: Some("duckduckgo.com".to_string()),
            netloc: "duckduckgo.com".to_string(),
            scheme: "https".to_string(),
            path: "s > {{query}}".to_string(),
        },
    }
}

#[test]
fn alphabetically_first_url_of_bang_should_be_greater() {
    let greater_bang = mock_bang();
    let lesser_bang = Bang {
        url: "https://buckduckgo.com/?q={{{s}}}".to_string(),
        ..greater_bang.clone()
    };

    assert!(greater_bang > lesser_bang);
}

#[test]
fn two_identical_bangs_should_be_equal() {
    // Two separate instances with identical data, not clones of one another.
    let first_bang = mock_bang();
    let second_bang = mock_bang();

    assert!(first_bang == second_bang);
}

#[test]
fn alphabetically_first_trigger_of_bang_should_be_greater() {
    let greater_bang = mock_bang();
    let lesser_bang = Bang {
        trigger: "bdg".to_string(),
        ..greater_bang.clone()
    };

    assert!(greater_bang > lesser_bang);
}
