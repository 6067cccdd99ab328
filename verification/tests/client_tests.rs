use wordbank::client::WordBankClient;
use wordbank::ident::Id;
use wordbank::memstore::MemStore;
use wordbank::pagination::PaginationOptions;
use wordbank::word::{Translation, Word, WordQueryOptions, WordType, WordUpdateOptions};

fn id_from_uuid_str(s: &str) -> Id {
    let (hi, lo) = uuid::Uuid::parse_str(s).unwrap().as_u64_pair();
    Id::from_parts(hi, lo)
}

#[test]
fn test_client_insert_words() {
    let client = WordBankClient::new(MemStore::new());

    let mut word = Word::from_value("살다");
    word.kind = WordType::VERB;
    word.translations = vec![Translation::from_value("To live")];

    let mut ctx = client.new_context().unwrap();

    let result = client.insert_word(&mut ctx, &mut word);
    assert!(result.is_ok());
    assert_eq!(word.id, result.unwrap());
}

#[test]
fn test_client_delete_word() {
    let client = WordBankClient::new(MemStore::new());

    let mut word = Word::from_value("살다");
    word.kind = WordType::VERB;
    word.translations = vec![Translation::from_value("To live")];

    let mut context = client.new_context().unwrap();

    let result = client.insert_word(&mut context, &mut word);
    assert!(result.is_ok());
    assert_eq!(word.id, result.unwrap());

    let result = client.delete_word(&mut context, word.id);
    assert!(result.is_ok());
}

#[test]
fn test_client_list_words() {
    let client = WordBankClient::new(MemStore::new());

    let expected_word = "살다".to_string();

    let mut ctx = client.new_context().unwrap();
    let mut word = Word::from_value(&expected_word);
    word.kind = WordType::VERB;
    word.translations = vec![Translation::from_value("To live")];
    client.insert_word(&mut ctx, &mut word).unwrap();

    let result = client.query_words(
        &mut ctx,
        WordQueryOptions {
            query: Some(expected_word.clone()),
            word: None,
            kind: Some(WordType::VERB),
            tags: None,
        },
        PaginationOptions::new(2, 1),
    );
    assert!(result.is_ok());

    let page_result = result.unwrap();

    assert_eq!(page_result.count, page_result.results.len());
    assert!(page_result.results.len() <= 2);

    page_result.results.iter().for_each(|w| {
        println!("{:?}", w);
        assert_eq!(expected_word, w.value);
        assert_eq!(WordType::VERB, w.kind);
    });
}

#[test]
fn test_client_update() {
    let client = WordBankClient::new(MemStore::new());
    let mut ctx = client.new_context().unwrap();

    let target = id_from_uuid_str("f2275b7f-3ad4-4cd5-8d42-0e92f8b4352a");
    let mut word = Word::from_value("감각");
    word.id = target;
    word.translations = vec![Translation::from_value("Sense")];
    client.insert_word(&mut ctx, &mut word).unwrap();

    let update_options = WordUpdateOptions {
        id: target,
        word: Some("촉각".to_string()),
        kind: None,
        tags: Some(vec!["Senses".to_string()]),
        translations: Some(vec![Translation::from_value("Sense of touch")]),
    };

    let result = client.update_word(&mut ctx, update_options);
    assert!(result.is_ok());
}
