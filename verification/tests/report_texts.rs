use atlas::diff::DiffReport;
use atlas::drift::{
    AssetType, AssetTypeSummary, Criticality, DriftFinding, DriftGroup, DriftSummary, Environment,
    FindingState, Severity, StateSummary,
};
use atlas::report::DriftReport;
use atlas::risk::{RiskItem, RiskReport, RiskSeverity};
use atlas::summary::{
    AlertEvent, AssetSummary, ExposureSummary, GraphSummaryView, SummaryReport,
};
use atlas::texts::{
    alert_line, diff_report_lines, drift_report_lines, risk_report_lines, summary_report_lines,
};

const NOW: i64 = 1_700_000_000;
const NOW_TEXT: &str = "2023-11-14 22:13:20 UTC";

fn s(x: &str) -> String {
    x.to_string()
}

#[test]
fn diff_text_counts_changes_and_notes_none() {
    let d = DiffReport {
        target: s("example.com"),
        older_timestamp: NOW,
        newer_timestamp: NOW + 60,
        new_ips: vec![],
        removed_ips: vec![],
        new_subdomains: vec![],
        removed_subdomains: vec![],
        new_services: vec![],
        removed_services: vec![],
        changed_services: vec![],
    };
    let lines = diff_report_lines(&d);
    assert_eq!(lines.len(), 14);
    assert_eq!(lines[0], "Target: example.com");
    assert_eq!(lines[1], format!("Snapshot anterior: {NOW_TEXT}"));
    assert_eq!(lines[2], "Snapshot actual:   2023-11-14 22:14:20 UTC");
    assert_eq!(lines[5], "  - IPs nuevas: 0");
    assert_eq!(lines[13], "No se detectaron cambios entre snapshots.");
    let mut with_ip = d.clone();
    with_ip.new_ips = vec![s("1.1.1.1")];
    let lines = diff_report_lines(&with_ip);
    assert_eq!(lines.len(), 12);
    assert_eq!(lines[5], "  - IPs nuevas: 1");
}

fn finding() -> DriftFinding {
    DriftFinding {
        finding_id: s("abc"),
        severity: Severity::High,
        score: 80,
        category: s("new_subdomain"),
        title: s("Nuevo subdominio"),
        resource: s("admin.example.com"),
        asset_type: AssetType::Subdomain,
        environment: Environment::Admin,
        criticality: Criticality::Critical,
        state: FindingState::New,
        tags: vec![s("admin"), s("new")],
        description: s("Apareció un subdominio."),
    }
}

#[test]
fn drift_text_lists_groups_and_findings() {
    let report = DriftReport {
        target: s("example.com"),
        older_timestamp: NOW,
        newer_timestamp: NOW,
        findings: vec![finding()],
        suppressed_findings: vec![],
        groups: vec![DriftGroup {
            resource: s("admin.example.com"),
            findings: vec![finding()],
            highest_severity: Severity::High,
            highest_criticality: Criticality::Critical,
            total_score: 80,
        }],
        summary: DriftSummary {
            high: 1,
            medium: 0,
            low: 0,
            info: 0,
            total_score: 80,
            overall_severity: Severity::High,
            critical_findings: 1,
            asset_types: AssetTypeSummary::default(),
            states: StateSummary { new: 1, ..StateSummary::default() },
        },
    };
    let lines = drift_report_lines(&report);
    assert_eq!(lines[3], "Hallazgos: 1");
    assert_eq!(lines[12], "Severidad global: HIGH");
    assert_eq!(lines[13], "Hallazgos sobre activos críticos: 1");
    assert_eq!(lines[16], "  - New: 1");
    assert_eq!(lines[21], "");
    assert_eq!(lines[22], "Hallazgos agrupados por recurso:");
    assert_eq!(lines[23], "  - recurso=admin.example.com | severidad=HIGH | criticidad=CRITICAL | score=80");
    assert_eq!(
        lines[24],
        "      [Nuevo subdominio] id=abc | categoría=new_subdomain | tipo=Subdomain | entorno=Admin | criticidad=CRITICAL | estado=New | score=80"
    );
    assert_eq!(lines[25], "          tags: admin, new");
    assert_eq!(lines[26], "          Apareció un subdominio.");
    assert_eq!(lines.len(), 27);
}

fn risk() -> RiskItem {
    RiskItem {
        rule_id: s("R1"),
        title: s("Panel expuesto"),
        severity: RiskSeverity::Critical,
        score: 90,
        resource: s("admin.example.com"),
        kind: s("exposure"),
        description: s("Un panel administrativo es público."),
        recommendation: s("Restringir el acceso."),
        evidence: vec![],
    }
}

#[test]
fn risk_text_lists_top_risks_or_notes_none() {
    let mut report = RiskReport {
        target: s("example.com"),
        generated_at: NOW,
        total_risks: 1,
        critical: 1,
        high: 0,
        medium: 0,
        low: 0,
        total_score: 90,
        top_risks: vec![risk()],
        risks: vec![risk()],
    };
    let lines = risk_report_lines(&report);
    assert_eq!(lines[1], format!("Generated at: {NOW_TEXT}"));
    assert_eq!(lines[11], "Top risks:");
    assert_eq!(lines[12], "  - [CRITICAL] Panel expuesto | resource=admin.example.com | score=90");
    assert_eq!(lines[15], "      recommendation=Restringir el acceso.");
    assert_eq!(lines.len(), 16);
    report.risks.clear();
    report.top_risks.clear();
    let lines = risk_report_lines(&report);
    assert_eq!(lines.last().unwrap(), "No se detectaron riesgos priorizados.");
}

#[test]
fn summary_text_has_every_section() {
    let report = SummaryReport {
        target: s("example.com"),
        generated_at: NOW,
        snapshot_count: 2,
        latest_snapshot_at: Some(NOW),
        assets: AssetSummary { subdomains: 1, ips: 2, services: 3, technologies: 4, episodes: 0 },
        exposure: ExposureSummary {
            critical_risks: 1,
            high_risks: 0,
            medium_risks: 0,
            low_risks: 0,
            total_risk_score: 90,
        },
        drift: None,
        graph: GraphSummaryView {
            node_count: 5,
            edge_count: 4,
            connected_nodes: 5,
            isolated_nodes: 0,
            max_degree: 3,
            hubs: vec![s("example.com [target]")],
        },
        recommendations: vec![s("Revisar el panel.")],
    };
    let lines = summary_report_lines(&report);
    assert_eq!(lines[3], format!("Latest snapshot: {NOW_TEXT}"));
    assert_eq!(lines[6], "  - Subdomains: 1");
    assert_eq!(lines[17], "  - Total risk score: 90");
    assert_eq!(lines[19], "Graph:");
    assert_eq!(lines[25], "  - Hubs:");
    assert_eq!(lines[26], "      example.com [target]");
    assert_eq!(lines[28], "Recommendations:");
    assert_eq!(lines[29], "  - Revisar el panel.");
    assert_eq!(lines.len(), 30);
}

#[test]
fn alert_line_names_severity_and_resource() {
    let a = AlertEvent {
        created_at: NOW,
        severity: RiskSeverity::High,
        title: s("Riesgo"),
        resource: s("api.example.com"),
        message: s("revisar"),
    };
    assert_eq!(alert_line(&a), "  - [HIGH] Riesgo | resource=api.example.com | revisar");
}
