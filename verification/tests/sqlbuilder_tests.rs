use wordbank::sqlbuilder::{Join, SqlBuilder, SqlValue};

#[test]
fn build_select_query() {
    let builder = SqlBuilder::select("words")
        .join(Join::CrossJoin("unnest(translations) as t".to_string()))
        .filter("t.value ILIKE '%?%'")
        .bind(SqlValue::Text("share".to_string()))
        .column("*");
    let (sql, _params) = builder.build();
    assert_eq!(
        sql,
        "SELECT * FROM words, unnest(translations) as t WHERE t.value ILIKE '%$1%';"
    );
}

#[test]
fn build_numbers_each_placeholder() {
    let builder = SqlBuilder::select("words")
        .column("*")
        .filter("kind = ?")
        .bind(SqlValue::Text("VERB".to_string()))
        .filter("value = ?")
        .bind(SqlValue::Text("살다".to_string()));
    let (sql, params) = builder.build();
    assert_eq!(sql, "SELECT * FROM words WHERE kind = ? AND value = ?;"
        .replace("kind = ?", "kind = $1")
        .replace("value = ?", "value = $2"));
    assert_eq!(params.len(), 2);
}

#[test]
fn build_select_with_order_and_limit() {
    let builder = SqlBuilder::select("words").column("id").order_by("created_at DESC").limit(5);
    let (sql, _params) = builder.build();
    assert_eq!(sql, "SELECT id FROM words ORDER BY created_at DESC LIMIT 5;");
}

#[test]
fn build_delete_query() {
    let builder = SqlBuilder::delete("words").filter("id = ?").bind(SqlValue::Int(7));
    let (sql, params) = builder.build();
    assert_eq!(sql, "DELETE FROM words WHERE id = $1;");
    assert_eq!(params.len(), 1);
}

#[test]
fn build_update_query() {
    let builder = SqlBuilder::update("words")
        .filter("id = ?")
        .bind(SqlValue::Int(1))
        .set_field("value", SqlValue::Text("먹다".to_string()))
        .set_field("kind", SqlValue::Text("VERB".to_string()))
        .returning("*");
    let (sql, params) = builder.build();
    // Placeholders are numbered by their position in the rendered text.
    assert_eq!(
        sql,
        "UPDATE words SET value = $1, kind = $2 WHERE id = $3 RETURNING *;"
    );
    assert_eq!(params.len(), 3);
}

#[test]
fn build_insert_query() {
    let builder = SqlBuilder::insert("words")
        .set_field("id", SqlValue::Int(1))
        .set_field("value", SqlValue::Text("살다".to_string()))
        .returning("id");
    let (sql, params) = builder.build();
    // One placeholder row per chunk of parameters, as the store layer
    // expects them.
    assert_eq!(sql, "INSERT INTO words ( id, value ) VALUES $1, $2, $3, $4 RETURNING id;");
    assert_eq!(params.len(), 2);
}
