//! End-to-end parses over the full SLR tables: the acceptance scenarios,
//! the recovery policies, and determinism of a whole session.
use analisador_lexico::parser::Parser;
use analisador_lexico::scanner::Scanner;
use analisador_lexico::slr_table::ActionTable;
use analisador_lexico::slr_table::GotoTable;
use analisador_lexico::slr_table::SLRAction;

fn action_lines() -> Vec<String> {
    vec![
        "state,inicio,varinicio,varfim,pt_v,id,vir,inteiro,real,literal,leia,escreva,lit,num,rcb,opm,se,ab_p,fc_p,entao,opr,fimse,repita,fimrepita,fim,eof".to_string(),
        "0,S2,,,,,,,,,,,,,,,,,,,,,,,,".to_string(),
        "1,,,,,,,,,,,,,,,,,,,,,,,,,R0".to_string(),
        "2,,S4,,,,,,,,,,,,,,,,,,,,,,,".to_string(),
        "3,,,,,S28,,,,,S29,S26,,,,,S31,,,,,,S30,,S27,".to_string(),
        "4,,,S11,,,,S8,S10,S9,,,,,,,,,,,,,,,,".to_string(),
        "5,,,S11,,,,S8,S10,S9,,,,,,,,,,,,,,,,".to_string(),
        "6,,,,,R2,,,,,R2,R2,,,,,R2,,,,,,R2,,R2,".to_string(),
        "7,,,,,S14,,,,,,,,,,,,,,,,,,,,".to_string(),
        "8,,,,,R8,,,,,,,,,,,,,,,,,,,,".to_string(),
        "9,,,,,R10,,,,,,,,,,,,,,,,,,,,".to_string(),
        "10,,,,,R9,,,,,,,,,,,,,,,,,,,,".to_string(),
        "11,E2,E2,E2,S12,E2,E2,E2,E2,E2,E2,E2,E2,E2,E2,E2,E2,E2,E2,E2,E2,E2,E2,E2,E2,E2".to_string(),
        "12,E4,E4,E4,E3,R4,E4,E4,E4,E4,R4,R4,E4,E4,E4,E4,R4,E4,E4,E4,E4,E4,R4,E4,R4,E4".to_string(),
        "13,E2,E2,E2,S17,E2,E2,E2,E2,E2,E2,E2,E2,E2,E2,E2,E2,E2,E2,E2,E2,E2,E2,E2,E2,E2".to_string(),
        "14,E2,E2,E2,R7,E2,S15,E2,E2,E2,E2,E2,E2,E2,E2,E2,E2,E2,E2,E2,E2,E2,E2,E2,E2,E2".to_string(),
        "15,,,,,S14,,,,,,,,,,,,,,,,,,,,".to_string(),
        "16,E2,E2,E2,R6,E2,E2,E2,E2,E2,E2,E2,E2,E2,E2,E2,E2,E2,E2,E2,E2,E2,E2,E2,E2,E2".to_string(),
        "17,E4,E4,R5,E3,E4,E4,R5,R5,R5,E4,E4,E4,E4,E4,E4,E4,E4,E4,E4,E4,E4,E4,E4,E4,E4".to_string(),
        "18,,,,,R3,,,,,R3,R3,,,,,R3,,,,,,R3,,R3,".to_string(),
        "19,,,,,,,,,,,,,,,,,,,,,,,,,R1".to_string(),
        "20,,,,,S28,,,,,S29,S26,,,,,S31,,,,,S73,,,,".to_string(),
        "21,,,,,S28,,,,,S29,S26,,,,,S31,,,,,,,S65,,".to_string(),
        "22,,,,,S28,,,,,S29,S26,,,,,S31,,,,,,S30,,S27,".to_string(),
        "23,,,,,S28,,,,,S29,S26,,,,,S31,,,,,,S30,,S27,".to_string(),
        "24,,,,,S28,,,,,S29,S26,,,,,S31,,,,,,S30,,S27,".to_string(),
        "25,,,,,S28,,,,,S29,S26,,,,,S31,,,,,,S30,,S27,".to_string(),
        "26,,,,,S53,,,,,,,S54,S55,,,,,,,,,,,,".to_string(),
        "27,E1,E1,E1,E1,E1,E1,E1,E1,E1,E1,E1,E1,E1,E1,E1,E1,E1,E1,E1,E1,E1,E1,E1,E1,R38".to_string(),
        "28,E7,E7,E7,E7,E7,E7,E7,E7,E7,E7,E7,E7,E7,S46,E7,E7,E7,E7,E7,E7,E7,E7,E7,E7,E7".to_string(),
        "29,,,,,S44,,,,,,,,,,,,,,,,,,,,".to_string(),
        "30,,,,,,,,,,,,,,,,,S41,,,,,,,,".to_string(),
        "31,E5,E5,E5,E5,E6,E5,E5,E5,E5,E5,E5,E5,E6,E5,E5,E5,S32,E5,E5,E5,E5,E5,E5,E5,E5".to_string(),
        "32,,,,,S35,,,,,,,,S36,,,,,,,,,,,,".to_string(),
        "33,,,,,,,,,,,,,,,,,,S39,,,,,,,".to_string(),
        "34,,,,,,,,,,,,,,,,,,,,S37,,,,,".to_string(),
        "35,E2,E2,E2,R21,E2,E2,E2,E2,E2,E2,E2,E2,E2,E2,R21,E2,E2,R21,E2,R21,E2,E2,E2,E2,E2".to_string(),
        "36,E8,E8,E8,R22,E8,E8,E8,E8,E8,E8,E8,E8,E8,E8,R22,E8,E8,R22,E8,R22,E8,E8,E8,E8,E8".to_string(),
        "37,,,,,S35,,,,,,,,S36,,,,,,,,,,,,".to_string(),
        "38,,,,,,,,,,,,,,,,,,R26,,,,,,,".to_string(),
        "39,,,,,,,,,,,,,,,,,,,S40,,,,,,".to_string(),
        "40,,,,,R25,,,,,R25,R25,,,,,R25,,,,,R25,,,,".to_string(),
        "41,,,,,S35,,,,,,,,S36,,,,,,,,,,,,".to_string(),
        "42,,,,,,,,,,,,,,,,,,S43,,,,,,,".to_string(),
        "43,,,,,R33,,,,,R33,R33,,,,,R33,,,,,,,R33,,".to_string(),
        "44,E2,E2,E2,S45,E2,E2,E2,E2,E2,E2,E2,E2,E2,E2,E2,E2,E2,E2,E2,E2,E2,E2,E2,E2,E2".to_string(),
        "45,E4,E4,E4,E3,R12,E4,E4,E4,E4,R12,R12,E4,E4,E4,E4,R12,E4,E4,E4,E4,R12,R12,R12,R12,E4".to_string(),
        "46,,,,,S35,,,,,,,,S36,,,,,,,,,,,,".to_string(),
        "47,E2,E2,E2,S51,E2,E2,E2,E2,E2,E2,E2,E2,E2,E2,E2,E2,E2,E2,E2,E2,E2,E2,E2,E2,E2".to_string(),
        "48,E2,E2,E2,R20,E2,E2,E2,E2,E2,E2,E2,E2,E2,E2,S49,E2,E2,E2,E2,E2,E2,E2,E2,E2,E2".to_string(),
        "49,,,,,S35,,,,,,,,S36,,,,,,,,,,,,".to_string(),
        "50,E2,E2,E2,R19,E2,E2,E2,E2,E2,E2,E2,E2,E2,E2,E2,E2,E2,E2,E2,E2,E2,E2,E2,E2,E2".to_string(),
        "51,E4,E4,E4,E3,R18,E4,E4,E4,E4,R18,R18,E4,E4,E4,E4,R18,E4,E4,E4,E4,R18,R18,R18,R18,E4".to_string(),
        "52,E2,E2,E2,S56,E2,E2,E2,E2,E2,E2,E2,E2,E2,E2,E2,E2,E2,E2,E2,E2,E2,E2,E2,E2,E2".to_string(),
        "53,E2,E2,E2,R16,E2,E2,E2,E2,E2,E2,E2,E2,E2,E2,E2,E2,E2,E2,E2,E2,E2,E2,E2,E2,E2".to_string(),
        "54,E2,E2,E2,R14,E2,E2,E2,E2,E2,E2,E2,E2,E2,E2,E2,E2,E2,E2,E2,E2,E2,E2,E2,E2,E2".to_string(),
        "55,E2,E2,E2,R15,E2,E2,E2,E2,E2,E2,E2,E2,E2,E2,E2,E2,E2,E2,E2,E2,E2,E2,E2,E2,E2".to_string(),
        "56,E4,E4,E4,E3,R13,E4,E4,E4,E4,R13,R13,E4,E4,E4,E4,R13,E4,E4,E4,E4,R13,R13,R13,R13,E4".to_string(),
        "57,,,,,,,,,,,,,,,,,,,,,,,,,R31".to_string(),
        "58,,,,,,,,,,,,,,,,,,,,,,,,,R11".to_string(),
        "59,,,,,,,,,,,,,,,,,,,,,,,,,R23".to_string(),
        "60,,,,,,,,,,,,,,,,,,,,,,,,,R17".to_string(),
        "61,,,,,S28,,,,,S29,S26,,,,,S31,,,,,,,S65,,".to_string(),
        "62,,,,,S28,,,,,S29,S26,,,,,S31,,,,,,,S65,,".to_string(),
        "63,,,,,R32,,,,,R32,R32,,,,,R32,,,,,,R32,,R32,".to_string(),
        "64,,,,,S28,,,,,S29,S26,,,,,S31,,,,,,,S65,,".to_string(),
        "65,,,,,R37,,,,,R37,R37,,,,,R37,,,,,,R37,,R37,".to_string(),
        "66,,,,,R34,,,,,R34,R34,,,,,R34,,,,,,R34,,R34,".to_string(),
        "67,,,,,R36,,,,,R36,R36,,,,,R36,,,,,,R36,,R36,".to_string(),
        "68,,,,,R35,,,,,R35,R35,,,,,R35,,,,,,R35,,R35,".to_string(),
        "69,,,,,S28,,,,,S29,S26,,,,,S31,,,,,S73,,,,".to_string(),
        "70,,,,,S28,,,,,S29,S26,,,,,S31,,,,,S73,,,,".to_string(),
        "71,,,,,R24,,,,,R24,R24,,,,,R24,,,,,R24,R24,R24,R24,".to_string(),
        "72,,,,,S28,,,,,S29,S26,,,,,S31,,,,,S73,,,,".to_string(),
        "73,,,,,R30,,,,,R30,R30,,,,,R30,,,,,R30,R30,R30,R30,".to_string(),
        "74,,,,,R27,,,,,R27,R27,,,,,R27,,,,,R27,R27,R27,R27,".to_string(),
        "75,,,,,R29,,,,,R29,R29,,,,,R29,,,,,R29,R29,R29,R29,".to_string(),
        "76,,,,,R28,,,,,R28,R28,,,,,R28,,,,,R28,R28,R28,R28,".to_string(),
        "77,,,,,,,,,,,,,,,,,,,,,,,,,Acc".to_string(),
    ]
}

fn goto_lines() -> Vec<String> {
    vec![
        "state,P',P,V,LV,D,L,TIPO,A,ES,ARG,CMD,LD,OPRD,COND,CAB,EXP_R,CP,R,CABR,CPR".to_string(),
        "0,77,1,0,0,0,0,0,0,0,0,0,0,0,0,0,0,0,0,0,0".to_string(),
        "1,0,0,0,0,0,0,0,0,0,0,0,0,0,0,0,0,0,0,0,0".to_string(),
        "2,0,0,3,0,0,0,0,0,0,0,0,0,0,0,0,0,0,0,0,0".to_string(),
        "3,0,0,0,0,0,0,0,19,24,0,22,0,0,23,20,0,0,25,21,0".to_string(),
        "4,0,0,0,6,5,0,7,0,0,0,0,0,0,0,0,0,0,0,0,0".to_string(),
        "5,0,0,0,18,5,0,7,0,0,0,0,0,0,0,0,0,0,0,0,0".to_string(),
        "6,0,0,0,0,0,0,0,0,0,0,0,0,0,0,0,0,0,0,0,0".to_string(),
        "7,0,0,0,0,0,13,0,0,0,0,0,0,0,0,0,0,0,0,0,0".to_string(),
        "8,0,0,0,0,0,0,0,0,0,0,0,0,0,0,0,0,0,0,0,0".to_string(),
        "9,0,0,0,0,0,0,0,0,0,0,0,0,0,0,0,0,0,0,0,0".to_string(),
        "10,0,0,0,0,0,0,0,0,0,0,0,0,0,0,0,0,0,0,0,0".to_string(),
        "11,0,0,0,0,0,0,0,0,0,0,0,0,0,0,0,0,0,0,0,0".to_string(),
        "12,0,0,0,0,0,0,0,0,0,0,0,0,0,0,0,0,0,0,0,0".to_string(),
        "13,0,0,0,0,0,0,0,0,0,0,0,0,0,0,0,0,0,0,0,0".to_string(),
        "14,0,0,0,0,0,0,0,0,0,0,0,0,0,0,0,0,0,0,0,0".to_string(),
        "15,0,0,0,0,0,16,0,0,0,0,0,0,0,0,0,0,0,0,0,0".to_string(),
        "16,0,0,0,0,0,0,0,0,0,0,0,0,0,0,0,0,0,0,0,0".to_string(),
        "17,0,0,0,0,0,0,0,0,0,0,0,0,0,0,0,0,0,0,0,0".to_string(),
        "18,0,0,0,0,0,0,0,0,0,0,0,0,0,0,0,0,0,0,0,0".to_string(),
        "19,0,0,0,0,0,0,0,0,0,0,0,0,0,0,0,0,0,0,0,0".to_string(),
        "20,0,0,0,0,0,0,0,0,72,0,69,0,0,70,20,0,71,0,0,0".to_string(),
        "21,0,0,0,0,0,0,0,0,64,0,61,0,0,62,20,0,0,0,0,63".to_string(),
        "22,0,0,0,0,0,0,0,60,24,0,22,0,0,23,20,0,0,25,21,0".to_string(),
        "23,0,0,0,0,0,0,0,59,24,0,22,0,0,23,20,0,0,25,21,0".to_string(),
        "24,0,0,0,0,0,0,0,58,24,0,22,0,0,23,20,0,0,25,21,0".to_string(),
        "25,0,0,0,0,0,0,0,57,24,0,22,0,0,23,20,0,0,25,21,0".to_string(),
        "26,0,0,0,0,0,0,0,0,0,52,0,0,0,0,0,0,0,0,0,0".to_string(),
        "27,0,0,0,0,0,0,0,0,0,0,0,0,0,0,0,0,0,0,0,0".to_string(),
        "28,0,0,0,0,0,0,0,0,0,0,0,0,0,0,0,0,0,0,0,0".to_string(),
        "29,0,0,0,0,0,0,0,0,0,0,0,0,0,0,0,0,0,0,0,0".to_string(),
        "30,0,0,0,0,0,0,0,0,0,0,0,0,0,0,0,0,0,0,0,0".to_string(),
        "31,0,0,0,0,0,0,0,0,0,0,0,0,0,0,0,0,0,0,0,0".to_string(),
        "32,0,0,0,0,0,0,0,0,0,0,0,0,34,0,0,33,0,0,0,0".to_string(),
        "33,0,0,0,0,0,0,0,0,0,0,0,0,0,0,0,0,0,0,0,0".to_string(),
        "34,0,0,0,0,0,0,0,0,0,0,0,0,0,0,0,0,0,0,0,0".to_string(),
        "35,0,0,0,0,0,0,0,0,0,0,0,0,0,0,0,0,0,0,0,0".to_string(),
        "36,0,0,0,0,0,0,0,0,0,0,0,0,0,0,0,0,0,0,0,0".to_string(),
        "37,0,0,0,0,0,0,0,0,0,0,0,0,38,0,0,0,0,0,0,0".to_string(),
        "38,0,0,0,0,0,0,0,0,0,0,0,0,0,0,0,0,0,0,0,0".to_string(),
        "39,0,0,0,0,0,0,0,0,0,0,0,0,0,0,0,0,0,0,0,0".to_string(),
        "40,0,0,0,0,0,0,0,0,0,0,0,0,0,0,0,0,0,0,0,0".to_string(),
        "41,0,0,0,0,0,0,0,0,0,0,0,0,34,0,0,42,0,0,0,0".to_string(),
        "42,0,0,0,0,0,0,0,0,0,0,0,0,0,0,0,0,0,0,0,0".to_string(),
        "43,0,0,0,0,0,0,0,0,0,0,0,0,0,0,0,0,0,0,0,0".to_string(),
        "44,0,0,0,0,0,0,0,0,0,0,0,0,0,0,0,0,0,0,0,0".to_string(),
        "45,0,0,0,0,0,0,0,0,0,0,0,0,0,0,0,0,0,0,0,0".to_string(),
        "46,0,0,0,0,0,0,0,0,0,0,0,47,48,0,0,0,0,0,0,0".to_string(),
        "47,0,0,0,0,0,0,0,0,0,0,0,0,0,0,0,0,0,0,0,0".to_string(),
        "48,0,0,0,0,0,0,0,0,0,0,0,0,0,0,0,0,0,0,0,0".to_string(),
        "49,0,0,0,0,0,0,0,0,0,0,0,0,50,0,0,0,0,0,0,0".to_string(),
        "50,0,0,0,0,0,0,0,0,0,0,0,0,0,0,0,0,0,0,0,0".to_string(),
        "51,0,0,0,0,0,0,0,0,0,0,0,0,0,0,0,0,0,0,0,0".to_string(),
        "52,0,0,0,0,0,0,0,0,0,0,0,0,0,0,0,0,0,0,0,0".to_string(),
        "53,0,0,0,0,0,0,0,0,0,0,0,0,0,0,0,0,0,0,0,0".to_string(),
        "54,0,0,0,0,0,0,0,0,0,0,0,0,0,0,0,0,0,0,0,0".to_string(),
        "55,0,0,0,0,0,0,0,0,0,0,0,0,0,0,0,0,0,0,0,0".to_string(),
        "56,0,0,0,0,0,0,0,0,0,0,0,0,0,0,0,0,0,0,0,0".to_string(),
        "57,0,0,0,0,0,0,0,0,0,0,0,0,0,0,0,0,0,0,0,0".to_string(),
        "58,0,0,0,0,0,0,0,0,0,0,0,0,0,0,0,0,0,0,0,0".to_string(),
        "59,0,0,0,0,0,0,0,0,0,0,0,0,0,0,0,0,0,0,0,0".to_string(),
        "60,0,0,0,0,0,0,0,0,0,0,0,0,0,0,0,0,0,0,0,0".to_string(),
        "61,0,0,0,0,0,0,0,0,64,0,61,0,0,62,20,0,0,0,0,68".to_string(),
        "62,0,0,0,0,0,0,0,0,64,0,61,0,0,62,20,0,0,0,0,67".to_string(),
        "63,0,0,0,0,0,0,0,0,0,0,0,0,0,0,0,0,0,0,0,0".to_string(),
        "64,0,0,0,0,0,0,0,0,64,0,61,0,0,62,20,0,0,0,0,66".to_string(),
        "65,0,0,0,0,0,0,0,0,0,0,0,0,0,0,0,0,0,0,0,0".to_string(),
        "66,0,0,0,0,0,0,0,0,0,0,0,0,0,0,0,0,0,0,0,0".to_string(),
        "67,0,0,0,0,0,0,0,0,0,0,0,0,0,0,0,0,0,0,0,0".to_string(),
        "68,0,0,0,0,0,0,0,0,0,0,0,0,0,0,0,0,0,0,0,0".to_string(),
        "69,0,0,0,0,0,0,0,0,72,0,69,0,0,70,20,0,76,0,0,0".to_string(),
        "70,0,0,0,0,0,0,0,0,72,0,69,0,0,70,20,0,75,0,0,0".to_string(),
        "71,0,0,0,0,0,0,0,0,0,0,0,0,0,0,0,0,0,0,0,0".to_string(),
        "72,0,0,0,0,0,0,0,0,72,0,69,0,0,70,20,0,74,0,0,0".to_string(),
        "73,0,0,0,0,0,0,0,0,0,0,0,0,0,0,0,0,0,0,0,0".to_string(),
        "74,0,0,0,0,0,0,0,0,0,0,0,0,0,0,0,0,0,0,0,0".to_string(),
        "75,0,0,0,0,0,0,0,0,0,0,0,0,0,0,0,0,0,0,0,0".to_string(),
        "76,0,0,0,0,0,0,0,0,0,0,0,0,0,0,0,0,0,0,0,0".to_string(),
        "77,0,0,0,0,0,0,0,0,0,0,0,0,0,0,0,0,0,0,0,0".to_string(),
    ]
}

fn make_parser() -> Parser {
    let action_table = ActionTable::new(&action_lines()).unwrap();
    let goto_table = GotoTable::new(&goto_lines()).unwrap();
    Parser::new(action_table, goto_table)
}

fn run(source: &str) -> (bool, Vec<u8>, Vec<u8>) {
    let mut scanner = Scanner::new(source.chars().collect());
    let mut parser = make_parser();
    let accepted = parser.parse(&mut scanner);
    let syntactic: Vec<u8> = parser.error_messages().iter().map(|e| e.code).collect();
    let trace: Vec<u8> = parser.trace().clone();
    (accepted, syntactic, trace)
}

#[test]
fn minimal_valid_program_accepts() {
    let (accepted, errors, trace) = run("inicio varinicio inteiro x ; varfim ; fim");
    assert!(accepted);
    assert_eq!(errors, Vec::<u8>::new());
    assert_eq!(trace, vec![8, 7, 5, 4, 3, 2, 38, 1, 0]);
}

#[test]
fn reduction_count_matches_derivation_length() {
    // the right-most derivation of the minimal program has nine steps,
    // ending with the augmented start rule
    let (accepted, _, trace) = run("inicio varinicio inteiro x ; varfim ; fim");
    assert!(accepted);
    assert_eq!(trace.len(), 9);
    assert_eq!(*trace.last().unwrap(), 0);
}

#[test]
fn missing_semicolon_recovers_with_e2() {
    let (accepted, errors, trace) = run("inicio varinicio inteiro x varfim ; fim");
    assert!(accepted);
    assert_eq!(errors, vec![2]);
    assert_eq!(trace, vec![8, 7, 5, 4, 3, 2, 38, 1, 0]);
}

#[test]
fn missing_semicolon_diagnostic_is_at_varfim() {
    let source = "inicio varinicio inteiro x varfim ; fim";
    let mut scanner = Scanner::new(source.chars().collect());
    let mut parser = make_parser();
    assert!(parser.parse(&mut scanner));
    let diags = parser.error_messages();
    assert_eq!(diags.len(), 1);
    assert_eq!(diags[0].code, 2);
    assert_eq!(diags[0].row, 1);
}

#[test]
fn double_semicolon_recovers_with_e3() {
    let (accepted, errors, trace) = run("inicio varinicio inteiro x ;; varfim ; fim");
    assert!(accepted);
    assert_eq!(errors, vec![3]);
    assert_eq!(trace, vec![8, 7, 5, 4, 3, 2, 38, 1, 0]);
}

#[test]
fn tokens_after_fim_recover_with_e1() {
    let (accepted, errors, trace) = run("inicio varinicio inteiro x ; varfim ; fim escreva \"a\" ;");
    assert!(accepted);
    assert_eq!(errors, vec![1]);
    assert_eq!(trace, vec![8, 7, 5, 4, 3, 2, 38, 1, 0]);
}

#[test]
fn missing_paren_after_se_recovers_with_e6() {
    let (accepted, errors, trace) = run("inicio varinicio inteiro x ; varfim ; se x < 1 ) entao fimse fim");
    assert!(accepted);
    assert_eq!(errors, vec![6]);
    assert_eq!(trace, vec![8, 7, 5, 4, 3, 2, 21, 22, 26, 25, 30, 24, 38, 23, 1, 0]);
}

#[test]
fn garbage_after_se_recovers_with_e5() {
    // a token that cannot open the condition is dropped and '(' inserted
    let (accepted, errors, _) = run("inicio varinicio inteiro x ; varfim ; se ; x < 1 ) entao fimse fim");
    assert!(accepted);
    assert_eq!(errors, vec![5]);
}

#[test]
fn invalid_follower_of_identifier_aborts_with_e7() {
    let (accepted, errors, trace) = run("inicio varinicio inteiro x ; varfim ; x x <- 1 ; fim");
    assert!(!accepted);
    assert_eq!(errors, vec![7]);
    assert_eq!(trace, vec![8, 7, 5, 4, 3, 2]);
}

#[test]
fn invalid_follower_of_number_aborts_with_e8() {
    let (accepted, errors, _) = run("inicio varinicio inteiro x ; varfim ; x <- 1 1 ; fim");
    assert!(!accepted);
    assert_eq!(errors, vec![8]);
}

#[test]
fn invalid_token_after_semicolon_recovers_with_e4() {
    let (accepted, errors, _) = run("inicio varinicio inteiro x ; entao varfim ; fim");
    assert!(accepted);
    assert_eq!(errors, vec![4]);
}

#[test]
fn empty_source_gives_e0_and_no_reductions() {
    let (accepted, errors, trace) = run("");
    assert!(!accepted);
    assert_eq!(errors, vec![0]);
    assert_eq!(trace, Vec::<u8>::new());
}

#[test]
fn empty_source_scanner_yields_one_eof_token() {
    let mut scanner = Scanner::new("".chars().collect());
    let token = scanner.scan();
    assert_eq!(token.class, Some(analisador_lexico::class::Class::Eof));
    assert_eq!(token.lexeme.as_deref(), Some("EOF"));
    assert!(scanner.error_messages().is_empty());
}

#[test]
fn larger_valid_program_accepts() {
    let source = "inicio varinicio inteiro a , b ; real c ; varfim ; leia a ; b <- a + 2 ; se ( a < b ) entao escreva \"ok\" ; fimse escreva c ; fim";
    let (accepted, errors, trace) = run(source);
    assert!(accepted);
    assert_eq!(errors, Vec::<u8>::new());
    assert_eq!(trace.len(), 34);
}

#[test]
fn repeat_loop_accepts() {
    let source = "inicio varinicio inteiro a ; varfim ; repita ( a < 1 ) a <- a + 1 ; fimrepita fim";
    let (accepted, errors, _) = run(source);
    assert!(accepted);
    assert_eq!(errors, Vec::<u8>::new());
}

#[test]
fn rerunning_parser_gives_identical_diagnostics_and_trace() {
    let source = "inicio varinicio inteiro x varfim ;; se 1 ) entao fimse fim";
    let mut scanner1 = Scanner::new(source.chars().collect());
    let mut parser1 = make_parser();
    let accepted1 = parser1.parse(&mut scanner1);
    let mut scanner2 = Scanner::new(source.chars().collect());
    let mut parser2 = make_parser();
    let accepted2 = parser2.parse(&mut scanner2);
    assert_eq!(accepted1, accepted2);
    assert_eq!(parser1.error_messages(), parser2.error_messages());
    assert_eq!(parser1.trace(), parser2.trace());
    assert_eq!(scanner1.error_messages(), scanner2.error_messages());
}

#[test]
fn lexical_errors_are_filtered_from_the_parser() {
    // the stray '_' yields a lexical error token that safe_scan drops
    let (accepted, errors, _) = run("inicio varinicio inteiro _ x ; varfim ; fim");
    assert!(accepted);
    assert_eq!(errors, Vec::<u8>::new());
}

#[test]
fn action_table_lookup_defaults_to_error_zero() {
    let action_table = ActionTable::new(&action_lines()).unwrap();
    assert_eq!(action_table.get(&(0, "fim".to_string())), SLRAction::E(0));
    assert_eq!(action_table.get(&(200, "id".to_string())), SLRAction::E(0));
    assert_eq!(action_table.get(&(0, "inicio".to_string())), SLRAction::S(2));
}

#[test]
fn the_error_cap_aborts_after_one_hundred_recoveries() {
    let mut source = String::from("inicio varinicio inteiro x ;");
    for _ in 0..150 {
        source.push(';');
    }
    source.push_str(" varfim ; fim");
    let (accepted, errors, _) = run(&source);
    assert!(!accepted);
    assert_eq!(errors.len(), 100);
    assert!(errors.iter().all(|&c| c == 3));
}

#[test]
fn ninety_nine_recoveries_still_accept() {
    let mut source = String::from("inicio varinicio inteiro x ;");
    for _ in 0..99 {
        source.push(';');
    }
    source.push_str(" varfim ; fim");
    let (accepted, errors, _) = run(&source);
    assert!(accepted);
    assert_eq!(errors.len(), 99);
}
