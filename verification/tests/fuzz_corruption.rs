//! Feeds the parser thousands of random byte-level corruptions of a valid
//! AFM file, with a small deterministic xorshift generator: the parser must
//! never panic, and any error it returns must point at a real location.

const VALID_AFM: &str = "StartFontMetrics 4.1\n\
FontName Helvetica\n\
FullName Helvetica\n\
FamilyName Helvetica\n\
Weight Medium\n\
ItalicAngle 0\n\
IsFixedPitch false\n\
FontBBox -166 -225 1000 931\n\
UnderlinePosition -100\n\
UnderlineThickness 50\n\
CapHeight 718\n\
XHeight 523\n\
Ascender 718\n\
Descender -207\n\
StdHW 80\n\
StdVW 88\n\
StartCharMetrics 3\n\
C 32 ; WX 278 ; N space ;\n\
C 65 ; WX 667 ; N A ;\n\
C 102 ; WX 333 ; N f ; L i fi ; L l fl ;\n\
EndCharMetrics\n\
StartKernPairs 2\n\
KPX A V -70\n\
KPX A W -50\n\
EndKernPairs\n\
EndFontMetrics\n";

/// Minimal xorshift64* generator, deterministic across runs.
struct Rng(u64);

impl Rng {
    fn next_u64(&mut self) -> u64 {
        let mut x = self.0;
        x ^= x << 13;
        x ^= x >> 7;
        x ^= x << 17;
        self.0 = x;
        x
    }

    fn next_range(&mut self, bound: usize) -> usize {
        if bound == 0 {
            return 0;
        }
        (self.next_u64() % bound as u64) as usize
    }
}

/// Applies a handful of random single-byte edits (replace, delete, insert).
fn corrupt(rng: &mut Rng, base: &[u8]) -> Vec<u8> {
    let mut bytes = base.to_vec();
    let edits = 1 + rng.next_range(8);
    for _ in 0..edits {
        if bytes.is_empty() {
            break;
        }
        match rng.next_range(3) {
            0 => {
                let i = rng.next_range(bytes.len());
                bytes[i] = rng.next_range(256) as u8;
            }
            1 => {
                let i = rng.next_range(bytes.len());
                bytes.remove(i);
            }
            _ => {
                let i = rng.next_range(bytes.len() + 1);
                bytes.insert(i, rng.next_range(256) as u8);
            }
        }
    }
    bytes
}

#[test]
fn baseline_sample_parses_cleanly() {
    afm_metrics::parse(VALID_AFM).expect("hand written sample should be well formed");
}

#[test]
fn random_byte_corruption_never_panics() {
    let mut rng = Rng(0x9e3779b97f4a7c15);

    for _ in 0..5000 {
        let corrupted = corrupt(&mut rng, VALID_AFM.as_bytes());
        let text = String::from_utf8_lossy(&corrupted).into_owned();

        if let Err(err) = afm_metrics::parse(&text) {
            assert!(err.line >= 1, "error line should be 1-based, got {}", err.line);
            assert!(err.column >= 1, "error column should be 1-based, got {}", err.column);
            assert!(!err.message.is_empty(), "error message should not be empty");
        }
    }
}

#[test]
fn corrupted_errors_point_into_the_text() {
    let mut rng = Rng(0x2545f4914f6cdd1d);

    for _ in 0..2000 {
        let corrupted = corrupt(&mut rng, VALID_AFM.as_bytes());
        let text = String::from_utf8_lossy(&corrupted).into_owned();
        let lines: Vec<&str> = text.split_terminator('\n').collect();

        match afm_metrics::parse(&text) {
            Err(err) => {
                if lines.is_empty() {
                    assert_eq!((err.line, err.column), (1, 1));
                } else {
                    assert!(err.line <= lines.len(), "line {} of {}", err.line, lines.len());
                    let len = lines[err.line - 1].chars().count();
                    assert!(err.column <= len + 1, "column {} past a line of {}", err.column, len);
                }
            }
            Ok(metrics) => {
                for g in &metrics.glyphs {
                    assert!(g.width.as_str().parse::<f64>().is_ok());
                    assert!(!g.name.is_empty());
                }
                for k in &metrics.kern_pairs {
                    assert!(k.adjustment.as_str().parse::<f64>().is_ok());
                }
            }
        }
    }
}
