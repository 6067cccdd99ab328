use wordbank::client::WordBankClient;
use wordbank::errors::WordBankError;
use wordbank::folder::{Folder, FolderUpdateOptions, ParentUpdate};
use wordbank::memstore::MemStore;
use wordbank::quiz::{QuizMode, QuizOptions, QuizWordOption};
use wordbank::word::{Translation, Word, WordType};

#[test]
fn scenario_insert_verb() {
    let client = WordBankClient::new(MemStore::new());
    let mut ctx = client.new_context().unwrap();

    let mut word = Word::from_value("살다");
    word.kind = WordType::VERB;
    word.translations = vec![Translation::from_value("To live")];

    let result = client.insert_word(&mut ctx, &mut word);
    assert!(result.is_ok());
    assert_eq!(result.unwrap(), word.id);
    assert_eq!(word.kind, WordType::VERB);
}

#[test]
fn scenario_folder_gains_word() {
    let mut client = WordBankClient::new(MemStore::new());
    let mut ctx = client.new_context().unwrap();

    let mut verbs = Folder::new("Verbs");
    client.insert_folder(&mut ctx, &mut verbs).unwrap();

    let mut word = Word::from_value("살다");
    word.kind = WordType::VERB;
    word.translations = vec![Translation::from_value("To live")];
    client.insert_word(&mut ctx, &mut word).unwrap();

    client
        .update_folder(
            &mut ctx,
            FolderUpdateOptions {
                id: verbs.id,
                name: None,
                parent: ParentUpdate::Keep,
                add: Some(vec![word.id]),
                remove: None,
            },
        )
        .unwrap();
    client.commit(ctx).unwrap();

    let mut ctx = client.new_context().unwrap();
    let fetched = client.get_folder(&mut ctx, verbs.id).unwrap();
    assert!(fetched.words.contains(&word.id));
    let content = client.get_folder_content(&mut ctx, &fetched).unwrap();
    assert_eq!(content.words.len(), 1);
    assert_eq!(content.words[0].id, word.id);
    assert_eq!(content.words[0].value, "살다");
}

#[test]
fn scenario_delete_word_detaches_it() {
    let mut client = WordBankClient::new(MemStore::new());
    let mut ctx = client.new_context().unwrap();

    let mut verbs = Folder::new("Verbs");
    client.insert_folder(&mut ctx, &mut verbs).unwrap();

    let mut word = Word::from_value("살다");
    word.kind = WordType::VERB;
    word.translations = vec![Translation::from_value("To live")];
    client.insert_word(&mut ctx, &mut word).unwrap();

    client
        .update_folder(
            &mut ctx,
            FolderUpdateOptions {
                id: verbs.id,
                name: None,
                parent: ParentUpdate::Keep,
                add: Some(vec![word.id]),
                remove: None,
            },
        )
        .unwrap();
    client.commit(ctx).unwrap();

    let mut ctx = client.new_context().unwrap();
    client.delete_word(&mut ctx, word.id).unwrap();
    client.commit(ctx).unwrap();

    let mut ctx = client.new_context().unwrap();
    let fetched = client.get_folder(&mut ctx, verbs.id).unwrap();
    assert!(!fetched.words.contains(&word.id));
}

#[test]
fn scenario_quiz_with_too_few_words() {
    let client = WordBankClient::new(MemStore::new());
    let mut ctx = client.new_context().unwrap();

    for value in ["하나", "둘", "셋"] {
        let mut word = Word::from_value(value);
        word.translations = vec![Translation::from_value("number")];
        client.insert_word(&mut ctx, &mut word).unwrap();
    }

    let options = QuizOptions {
        mode: QuizMode::Normal,
        words: QuizWordOption { folders: None, count: Some(5) },
    };
    let quiz = client.initialize_quiz(&mut ctx, &options).unwrap();
    assert_eq!(quiz.words.len(), 3);
}

#[test]
fn scenario_delete_folder_with_word_conflicts() {
    let mut client = WordBankClient::new(MemStore::new());
    let mut ctx = client.new_context().unwrap();

    let mut verbs = Folder::new("Verbs");
    client.insert_folder(&mut ctx, &mut verbs).unwrap();

    let mut word = Word::from_value("살다");
    word.kind = WordType::VERB;
    word.translations = vec![Translation::from_value("To live")];
    client.insert_word(&mut ctx, &mut word).unwrap();

    client
        .update_folder(
            &mut ctx,
            FolderUpdateOptions {
                id: verbs.id,
                name: None,
                parent: ParentUpdate::Keep,
                add: Some(vec![word.id]),
                remove: None,
            },
        )
        .unwrap();
    client.commit(ctx).unwrap();

    let mut ctx = client.new_context().unwrap();
    let result = client.delete_folder(&mut ctx, verbs.id);
    assert_eq!(result, Err(WordBankError::Conflict));

    // The folder is still there, unchanged.
    let fetched = client.get_folder(&mut ctx, verbs.id).unwrap();
    assert_eq!(fetched.name, "Verbs");
    assert!(fetched.words.contains(&word.id));
}

#[test]
fn scenario_delete_folder_with_child_conflicts() {
    let client = WordBankClient::new(MemStore::new());
    let mut ctx = client.new_context().unwrap();

    let mut parent = Folder::new("Parent");
    client.insert_folder(&mut ctx, &mut parent).unwrap();

    let mut child = Folder::new("Child");
    child.parent = Some(parent.id);
    client.insert_folder(&mut ctx, &mut child).unwrap();

    let result = client.delete_folder(&mut ctx, parent.id);
    assert_eq!(result, Err(WordBankError::Conflict));

    // Deleting the childless, empty child goes through.
    let result = client.delete_folder(&mut ctx, child.id);
    assert!(result.is_ok());
}
