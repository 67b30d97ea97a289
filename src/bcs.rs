//! The statement layout of the BCS broker.
use vstd::prelude::*;
use crate::registry::{HandlerKind, Section, patterns, required_flags};
use crate::statement::{Statement, StatementError, assemble, read_outcome};
use vstd::string::StringSliceAdditionalSpecFns;

verus! {

/// The section patterns of a BCS statement, in order.
pub open spec fn bcs_patterns() -> Seq<Seq<char>> {
    seq![
        "Период:"@,
        "1. Движение денежных средств"@,
        "1.1. Движение денежных средств по совершенным сделкам:"@,
        "1.1.1. Движение денежных средств по совершенным сделкам (иным операциям) с ценными бумагами, по срочным сделкам, а также сделкам с иностранной валютой:"@,
        "Остаток денежных средств на начало периода (Рубль):"@,
        "Остаток денежных средств на конец периода (Рубль):"@,
        "Рубль"@,
        "2.1. Сделки:"@,
        "Пай"@,
        "2.3. Незавершенные сделки"@,
        "3. Активы:"@,
        "Вид актива"@,
    ]
}

pub open spec fn bcs_required() -> Seq<bool> {
    seq![true, true, true, true, true, true, true, false, false, false, true, true]
}

pub open spec fn bcs_handlers() -> Seq<Option<HandlerKind>> {
    seq![
        Some(HandlerKind::Period),
        None,
        None,
        None,
        None,
        None,
        Some(HandlerKind::CashFlow),
        None,
        Some(HandlerKind::Trades),
        None,
        None,
        Some(HandlerKind::Assets),
    ]
}

/// `registry` is the BCS layout.
pub open spec fn is_bcs_registry(registry: Seq<Section>) -> bool {
    &&& patterns(registry) == bcs_patterns()
    &&& required_flags(registry) == bcs_required()
    &&& registry.map_values(|s: Section| s.handler) == bcs_handlers()
}

/// Reads BCS statements.
pub struct StatementReader {
    pub broker: String,
    pub sections: Vec<Section>,
}

/// Whether `bytes` end with `.xls`.
pub open spec fn has_xls_suffix(bytes: Seq<u8>) -> bool {
    // The bytes of ".xls".
    bytes.len() >= 4 && bytes.subrange(bytes.len() - 4, bytes.len() as int) == seq![46u8, 120u8, 108u8, 115u8]
}

impl StatementReader {
    pub fn new() -> (r: StatementReader)
        ensures
            r.broker@ == "БКС"@,
            is_bcs_registry(r.sections@),
    {
        let mut sections: Vec<Section> = Vec::new();
        sections.push(Section::new("Период:").parser(HandlerKind::Period).required());
        sections.push(Section::new("1. Движение денежных средств").required());
        sections.push(Section::new("1.1. Движение денежных средств по совершенным сделкам:").required());
        sections.push(Section::new("1.1.1. Движение денежных средств по совершенным сделкам (иным операциям) с ценными бумагами, по срочным сделкам, а также сделкам с иностранной валютой:").required());
        sections.push(Section::new("Остаток денежных средств на начало периода (Рубль):").required());
        sections.push(Section::new("Остаток денежных средств на конец периода (Рубль):").required());
        sections.push(Section::new("Рубль").parser(HandlerKind::CashFlow).required());
        sections.push(Section::new("2.1. Сделки:"));
        sections.push(Section::new("Пай").parser(HandlerKind::Trades));
        sections.push(Section::new("2.3. Незавершенные сделки"));
        sections.push(Section::new("3. Активы:").required());
        sections.push(Section::new("Вид актива").parser(HandlerKind::Assets).required());
        assert(patterns(sections@) =~= bcs_patterns());
        assert(required_flags(sections@) =~= bcs_required());
        assert(sections@.map_values(|s: Section| s.handler) =~= bcs_handlers());
        StatementReader { broker: "БКС".to_string(), sections }
    }

    /// Whether `path` names a statement of this broker: an `.xls` file.
    pub fn is_statement(&self, path: &str) -> (r: bool)
        ensures
            r == has_xls_suffix(path.spec_bytes()),
    {
        let b: &[u8] = path.as_bytes();
        let n: usize = b.len();
        if n < 4 {
            return false;
        }
        let r = b[n - 4] == 46u8 && b[n - 3] == 120u8 && b[n - 2] == 108u8 && b[n - 1] == 115u8;
        assert(r == (b@.subrange(n - 4, n as int) =~= seq![46u8, 120u8, 108u8, 115u8]));
        r
    }

    /// Reads the rows of a statement, each given as its cells.
    pub fn read(&self, rows: &Vec<Vec<String>>) -> (r: Result<Statement, StatementError>)
        ensures
            read_outcome(self.sections@, rows@, r),
    {
        assemble(&self.sections, rows)
    }
}

} // verus!
