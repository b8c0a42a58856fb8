use base64::Engine;
use iphone_bridge::files::pshell::{b64_utf16, run_powershell, run_powershell_json, PowershellEnd};
use iphone_bridge::json::Json;


#[test]
fn b64_utf16_round_trips_via_manual_decode() {
    let s = r"C:\$Recycle.Bin\S-1-5-21\$RABC123.txt";
    let encoded = b64_utf16(s);
    let bytes = base64::engine::general_purpose::STANDARD
        .decode(&encoded)
        .unwrap();
    let wide: Vec<u16> = bytes
        .chunks_exact(2)
        .map(|c| u16::from_le_bytes([c[0], c[1]]))
        .collect();
    let decoded = String::from_utf16(&wide).unwrap();
    assert_eq!(decoded, s);
}


#[test]
fn every_end_of_a_run_is_told() {
    let end = |success: bool, out: &str, err: &str| PowershellEnd::Exited {
        success,
        stdout: out.to_string(),
        stderr: err.to_string(),
    };
    assert_eq!(run_powershell(&end(true, " ok \r\n", "")), Ok("ok".to_string()));
    assert_eq!(
        run_powershell(&end(false, "", " no \n")),
        Err("powershell operation failed: no".to_string())
    );
    assert_eq!(
        run_powershell(&PowershellEnd::TimedOut),
        Err("powershell operation timed out".to_string())
    );
    assert_eq!(
        run_powershell(&PowershellEnd::NotStarted("x".to_string())),
        Err("failed to spawn powershell.exe: x".to_string())
    );
    assert_eq!(
        run_powershell(&PowershellEnd::WaitFailed("x".to_string())),
        Err("failed waiting on powershell.exe: x".to_string())
    );
    assert_eq!(
        run_powershell(&PowershellEnd::CollectFailed("x".to_string())),
        Err("failed to collect powershell output: x".to_string())
    );
    assert!(matches!(run_powershell_json(&end(true, "true", "")), Ok(Json::Bool(true))));
    assert!(run_powershell_json(&end(true, "not json", "")).is_err());
}
