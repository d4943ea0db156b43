use mini_llm::tensor::plan::embedding_rows;

#[test]
fn test_embedding_lookup() {
    let weight = [
        1.0f32, 2.0, // token 0
        3.0, 4.0, // token 1
        5.0, 6.0, // token 2
    ];
    let weight_dims = [3usize, 2];

    let tokens = [2, 0];
    let rows = embedding_rows(&tokens, &weight_dims).unwrap();
    let emb: Vec<f32> = rows.iter().flat_map(|&r| weight[r..r + 2].to_vec()).collect();
    let emb_dims = [tokens.len(), weight_dims[1]];
    assert_eq!(emb_dims, [2, 2]);
    assert_eq!(emb, vec![5.0, 6.0, 1.0, 2.0]);
}
