use wordbank::client::WordBankClient;
use wordbank::errors::WordBankError;
use wordbank::folder::{Folder, FolderQueryOptions, FolderUpdateOptions, ParentFilter, ParentUpdate};
use wordbank::memstore::MemStore;
use wordbank::pagination::{PaginationOptionalOptions, PaginationOptions};
use wordbank::quiz::{QuizQuestionResult, QuizResult};
use wordbank::store::DB;
use wordbank::word::{Translation, Word, WordQueryOptions, WordType, WordUpdateOptions};

#[test]
fn pagination_skip_formula() {
    assert_eq!(PaginationOptions::new(25, 3).skip(), 50);
    assert_eq!(PaginationOptions::new(10, 1).skip(), 0);
    assert_eq!(PaginationOptions::new(7, 4).skip(), 21);
}

#[test]
fn pagination_page_zero_is_coerced() {
    let p = PaginationOptions::new(25, 0);
    assert_eq!(p.page, 1);
    assert_eq!(p.skip(), 0);
    assert_eq!(PaginationOptions::default().limit, 10);
}

#[test]
fn pagination_optional_defaults() {
    let p = PaginationOptionalOptions { limit: None, page: None }.to_pagination_options();
    assert_eq!(p.limit, 25);
    assert_eq!(p.page, 1);
    let q = PaginationOptionalOptions { limit: Some(5), page: Some(0) }.to_pagination_options();
    assert_eq!(q.limit, 5);
    assert_eq!(q.page, 1);
}

#[test]
fn word_type_parsing_is_case_insensitive() {
    assert_eq!(WordType::from_str("verb"), Ok(WordType::VERB));
    assert_eq!(WordType::from_str("VERB"), Ok(WordType::VERB));
    assert_eq!(WordType::from_str("Noun"), Ok(WordType::NOUN));
    assert_eq!(WordType::from_str("determiner"), Ok(WordType::DETERMINER));
    assert_eq!(WordType::from_str("bogus"), Err(WordBankError::Validation));
    assert_eq!(WordType::VERB.name(), "VERB");
    assert_eq!(WordType::NONE.name(), "NONE");
}

#[test]
fn translation_value_is_capitalized() {
    let t = Translation::from_value("to live");
    assert_eq!(t.value, "To live");
    let u = Translation::from_value("살다");
    assert_eq!(u.value, "살다");
    let e = Translation::from_value("");
    assert_eq!(e.value, "");
}

#[test]
fn word_value_is_trimmed() {
    let w = Word::from_value("  살다  ");
    assert_eq!(w.value, "살다");
    assert_eq!(w.kind, WordType::NONE);
    assert!(w.tags.is_empty());
    assert!(w.translations.is_empty());
}

#[test]
fn word_timestamps_equal_at_birth() {
    let client = WordBankClient::new(MemStore::new());
    let mut ctx = client.new_context().unwrap();
    let mut word = Word::from_value("살다");
    word.translations = vec![Translation::from_value("To live")];
    client.insert_word(&mut ctx, &mut word).unwrap();
    assert_eq!(word.created_at, word.updated_at);
}

#[test]
fn insert_without_translation_is_rejected_and_writes_nothing() {
    let client = WordBankClient::new(MemStore::new());
    let mut ctx = client.new_context().unwrap();
    let mut word = Word::from_value("살다");
    let result = client.insert_word(&mut ctx, &mut word);
    assert_eq!(result, Err(WordBankError::Validation));

    let page = client
        .query_words(&mut ctx, WordQueryOptions::empty(), PaginationOptions::new(10, 1))
        .unwrap();
    assert_eq!(page.total, 0);
    assert_eq!(page.count, 0);
}

#[test]
fn adding_a_word_twice_keeps_it_once() {
    let client = WordBankClient::new(MemStore::new());
    let mut ctx = client.new_context().unwrap();

    let mut folder = Folder::new("Dup");
    client.insert_folder(&mut ctx, &mut folder).unwrap();
    let mut word = Word::from_value("살다");
    word.translations = vec![Translation::from_value("To live")];
    client.insert_word(&mut ctx, &mut word).unwrap();

    for _ in 0..2 {
        client
            .update_folder(
                &mut ctx,
                FolderUpdateOptions {
                    id: folder.id,
                    name: None,
                    parent: ParentUpdate::Keep,
                    add: Some(vec![word.id]),
                    remove: None,
                },
            )
            .unwrap();
    }

    let fetched = client.get_folder(&mut ctx, folder.id).unwrap();
    let occurrences = fetched.words.iter().filter(|w| **w == word.id).count();
    assert_eq!(occurrences, 1);
}

#[test]
fn query_matches_value_and_translations() {
    let client = WordBankClient::new(MemStore::new());
    let mut ctx = client.new_context().unwrap();

    let mut live = Word::from_value("살다");
    live.kind = WordType::VERB;
    live.translations = vec![Translation::from_value("to live")];
    live.tags = vec!["basic".to_string(), "life".to_string()];
    client.insert_word(&mut ctx, &mut live).unwrap();

    let mut eat = Word::from_value("먹다");
    eat.kind = WordType::VERB;
    eat.translations = vec![Translation::from_value("to eat")];
    client.insert_word(&mut ctx, &mut eat).unwrap();

    // Case-insensitive substring against a translation.
    let page = client
        .query_words(
            &mut ctx,
            WordQueryOptions { query: Some("LIVE".to_string()), word: None, kind: None, tags: None },
            PaginationOptions::new(10, 1),
        )
        .unwrap();
    assert_eq!(page.total, 1);
    assert_eq!(page.results[0].value, "살다");

    // Exact word match.
    let page = client
        .query_words(
            &mut ctx,
            WordQueryOptions { query: None, word: Some("먹다".to_string()), kind: None, tags: None },
            PaginationOptions::new(10, 1),
        )
        .unwrap();
    assert_eq!(page.total, 1);
    assert_eq!(page.results[0].value, "먹다");

    // Tags: contains-all semantics.
    let page = client
        .query_words(
            &mut ctx,
            WordQueryOptions {
                query: None,
                word: None,
                kind: None,
                tags: Some(vec!["basic".to_string(), "life".to_string()]),
            },
            PaginationOptions::new(10, 1),
        )
        .unwrap();
    assert_eq!(page.total, 1);
    let page = client
        .query_words(
            &mut ctx,
            WordQueryOptions {
                query: None,
                word: None,
                kind: None,
                tags: Some(vec!["basic".to_string(), "missing".to_string()]),
            },
            PaginationOptions::new(10, 1),
        )
        .unwrap();
    assert_eq!(page.total, 0);
}

#[test]
fn query_pagination_slices_results() {
    let client = WordBankClient::new(MemStore::new());
    let mut ctx = client.new_context().unwrap();
    for value in ["a", "b", "c", "d", "e"] {
        let mut w = Word::from_value(value);
        w.translations = vec![Translation::from_value(value)];
        client.insert_word(&mut ctx, &mut w).unwrap();
    }
    let page = client
        .query_words(&mut ctx, WordQueryOptions::empty(), PaginationOptions::new(2, 2))
        .unwrap();
    assert_eq!(page.total, 5);
    assert_eq!(page.page, 2);
    assert_eq!(page.count, 2);
    assert_eq!(page.results[0].value, "c");
    assert_eq!(page.results[1].value, "d");
}

#[test]
fn folder_queries_filter_by_parent_and_name() {
    let client = WordBankClient::new(MemStore::new());
    let mut ctx = client.new_context().unwrap();

    let mut root = Folder::new("Root");
    client.insert_folder(&mut ctx, &mut root).unwrap();
    let mut child = Folder::new("Child one");
    child.parent = Some(root.id);
    client.insert_folder(&mut ctx, &mut child).unwrap();

    let page = client
        .query_folders(
            &mut ctx,
            FolderQueryOptions {
                query: None,
                words: None,
                parent: ParentFilter::Root,
                ids: None,
            },
            PaginationOptions::new(10, 1),
        )
        .unwrap();
    assert_eq!(page.total, 1);
    assert_eq!(page.results[0].name, "Root");

    let page = client
        .query_folders(
            &mut ctx,
            FolderQueryOptions {
                query: Some("CHILD".to_string()),
                words: None,
                parent: ParentFilter::Any,
                ids: None,
            },
            PaginationOptions::new(10, 1),
        )
        .unwrap();
    assert_eq!(page.total, 1);
    assert_eq!(page.results[0].name, "Child one");
}

#[test]
fn update_word_patches_only_given_fields() {
    let client = WordBankClient::new(MemStore::new());
    let mut ctx = client.new_context().unwrap();
    let mut word = Word::from_value("살다");
    word.kind = WordType::VERB;
    word.translations = vec![Translation::from_value("To live")];
    client.insert_word(&mut ctx, &mut word).unwrap();

    let updated = client
        .update_word(
            &mut ctx,
            WordUpdateOptions {
                id: word.id,
                word: None,
                kind: Some(WordType::OTHER),
                tags: None,
                translations: None,
            },
        )
        .unwrap();
    assert_eq!(updated.value, "살다");
    assert_eq!(updated.kind, WordType::OTHER);
    assert_eq!(updated.translations.len(), 1);
    assert_eq!(updated.created_at, word.created_at);
}

#[test]
fn missing_records_are_not_found() {
    let client = WordBankClient::new(MemStore::new());
    let mut ctx = client.new_context().unwrap();
    let ghost_id = wordbank::ident::Id::from_parts(1, 2);
    let r = client.update_word(
        &mut ctx,
        WordUpdateOptions { id: ghost_id, word: None, kind: None, tags: None, translations: None },
    );
    assert_eq!(r.err(), Some(WordBankError::NotFound));
    let r = client.get_folder(&mut ctx, ghost_id);
    assert_eq!(r.err(), Some(WordBankError::NotFound));
    let r = client.delete_folder(&mut ctx, ghost_id);
    assert_eq!(r, Err(WordBankError::NotFound));
}

#[test]
fn duplicate_insert_conflicts() {
    let client = WordBankClient::new(MemStore::new());
    let mut ctx = client.new_context().unwrap();
    let mut word = Word::from_value("살다");
    word.translations = vec![Translation::from_value("To live")];
    client.insert_word(&mut ctx, &mut word).unwrap();
    let mut again = Word::from_value("살다");
    again.id = word.id;
    again.translations = vec![Translation::from_value("To live")];
    let r = client.insert_word(&mut ctx, &mut again);
    assert_eq!(r, Err(WordBankError::Conflict));
}

#[test]
fn statistics_count_words_and_quizzes() {
    let mut client = WordBankClient::new(MemStore::new());
    let mut ctx = client.new_context().unwrap();

    for (value, kind) in [("살다", WordType::VERB), ("먹다", WordType::VERB), ("집", WordType::NOUN)] {
        let mut w = Word::from_value(value);
        w.kind = kind;
        w.translations = vec![Translation::from_value(value)];
        client.insert_word(&mut ctx, &mut w).unwrap();
    }
    let mut result = QuizResult::new(vec![QuizQuestionResult {
        word_id: wordbank::ident::Id::from_parts(9, 9),
        num_corrects: 3,
        num_incorrects: 1,
    }]);
    client.insert_quiz_result(&mut ctx, &mut result).unwrap();
    client.commit(ctx).unwrap();

    let mut ctx = client.new_context().unwrap();
    let stats = client.get_user_statistics(&mut ctx).unwrap();
    assert_eq!(stats.word_count, 3);
    assert_eq!(stats.quiz_count, 1);
    let verbs = stats
        .word_types
        .iter()
        .find(|c| c.kind == WordType::VERB)
        .unwrap();
    assert_eq!(verbs.count, 2);
    let nouns = stats
        .word_types
        .iter()
        .find(|c| c.kind == WordType::NOUN)
        .unwrap();
    assert_eq!(nouns.count, 1);
}

#[test]
fn uncommitted_work_is_not_visible() {
    let mut client = WordBankClient::new(MemStore::new());

    let mut ctx = client.new_context().unwrap();
    let mut word = Word::from_value("살다");
    word.translations = vec![Translation::from_value("To live")];
    client.insert_word(&mut ctx, &mut word).unwrap();
    client.abort(ctx).unwrap();

    let mut ctx = client.new_context().unwrap();
    let page = client
        .query_words(&mut ctx, WordQueryOptions::empty(), PaginationOptions::new(10, 1))
        .unwrap();
    assert_eq!(page.total, 0);

    let mut ctx = client.new_context().unwrap();
    let mut word = Word::from_value("살다");
    word.translations = vec![Translation::from_value("To live")];
    client.insert_word(&mut ctx, &mut word).unwrap();
    client.commit(ctx).unwrap();

    let mut ctx = client.new_context().unwrap();
    let page = client
        .query_words(&mut ctx, WordQueryOptions::empty(), PaginationOptions::new(10, 1))
        .unwrap();
    assert_eq!(page.total, 1);
}

#[test]
fn inserted_word_round_trips_through_fetch() {
    let store = MemStore::new();
    let mut ctx = store.new_context().unwrap();
    let mut word = Word::from_value("살다");
    word.kind = WordType::VERB;
    word.tags = vec!["basic".to_string()];
    word.translations = vec![Translation::from_value("To live")];
    store.insert_word(&mut ctx, &word).unwrap();

    let got = store.get_words(&mut ctx, &vec![word.id]).unwrap();
    assert_eq!(got.len(), 1);
    assert_eq!(got[0].id, word.id);
    assert_eq!(got[0].value, word.value);
    assert_eq!(got[0].kind, word.kind);
    assert_eq!(got[0].tags, word.tags);
    assert_eq!(got[0].translations.len(), 1);
    assert_eq!(got[0].translations[0].value, "To live");
    assert_eq!(got[0].created_at, word.created_at);
    assert_eq!(got[0].updated_at, word.updated_at);
}

#[test]
fn random_words_are_distinct_store_words() {
    let client = WordBankClient::new(MemStore::new());
    let mut ctx = client.new_context().unwrap();
    for value in ["a", "b", "c", "d"] {
        let mut w = Word::from_value(value);
        w.translations = vec![Translation::from_value(value)];
        client.insert_word(&mut ctx, &mut w).unwrap();
    }
    let ws = client.get_random_words(&mut ctx, 2).unwrap();
    assert_eq!(ws.len(), 2);
    assert_ne!(ws[0].id, ws[1].id);
    let all = client.get_random_words(&mut ctx, 10).unwrap();
    assert_eq!(all.len(), 4);
}

#[test]
fn error_names_are_stable() {
    assert_eq!(WordBankError::Validation.name(), "VALIDATION_ERROR");
    assert_eq!(WordBankError::NotFound.name(), "NOT_FOUND_ERROR");
    assert_eq!(WordBankError::Conflict.name(), "CONFLICT_ERROR");
    assert_eq!(WordBankError::Store.name(), "STORE_ERROR");
}
