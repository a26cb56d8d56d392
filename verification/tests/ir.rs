use calc_lang::ir::{collect_temps, Temp};
use calc_lang::lower::temps_needed;
use calc_lang::parser::LalrpopFrontend;
use calc_lang::frontend::ParserFrontend;
use calc_lang::pipeline::compile_front;

#[test]
fn every_temp_written_is_collected_result_first() {
    let program = compile_front("{ let x = 1; if x { x + 1 } else { 2 } }")
        .ok()
        .unwrap();
    assert_eq!(
        collect_temps(&program),
        [Temp(1), Temp(0), Temp(1), Temp(2), Temp(3), Temp(1), Temp(4), Temp(1)]
    );
}

#[test]
fn temps_needed_counts_the_temps_lowering_creates() {
    let ast = LalrpopFrontend.parse("print(1); { let x = 2; x * 3 }").unwrap();
    assert_eq!(temps_needed(&ast), 5);
    let ast = LalrpopFrontend.parse("{ let y = 1; y }").unwrap();
    assert_eq!(temps_needed(&ast), 1);
}
