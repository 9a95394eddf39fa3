use rotext::block::utils::BlockIdGenerator;
use rotext::types::BlockId;

#[test]
fn block_ids_count_up_from_one() {
    let mut generator = BlockIdGenerator::new();
    let ids: Vec<BlockId> = (0..6).map(|_| generator.pop()).collect();
    let values: Vec<usize> = ids.iter().map(|id| id.value()).collect();
    assert_eq!(values, vec![1, 2, 3, 4, 5, 6]);
    assert_eq!(ids[0], BlockId::new(1));
}
