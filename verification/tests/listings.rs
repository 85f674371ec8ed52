use hack_toolchain::instruction::{CompToken, DestToken, JumpToken};
use hack_toolchain::listing::Block;

#[test]
fn an_empty_block_has_no_text() {
    assert_eq!(Block::new().into_text(), "");
}

#[test]
fn each_line_ends_with_a_line_feed() {
    let mut block = Block::new();
    block.blank();
    block.comment("push constant 7");
    block.at_number(7, "");
    block.store(DestToken::D, CompToken::A);
    block.at_symbol("SP", "  // the stack pointer");
    block.compute(DestToken::Empty, CompToken::D, JumpToken::JGT, "");
    block.compute(DestToken::D, CompToken::Zero, JumpToken::JMP, " // false");
    block.compute(DestToken::Empty, CompToken::Zero, JumpToken::Empty, "");
    block.label("LOOP", "");
    block.label("Main.f$END", " ");
    assert_eq!(
        block.into_text(),
        "\n// push constant 7\n@7\nD=A\n@SP  // the stack pointer\nD;JGT\nD=0;JMP // false\n0\n(LOOP)\n(Main.f$END) \n"
    );
}
