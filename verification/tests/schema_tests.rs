use callbreak::schema::Schema;

#[test]
fn new_works() {
    let _game = Schema {
        players: vec![],
        rounds: vec![],
    };
}
