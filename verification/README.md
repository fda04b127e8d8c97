# vehicle_audio_engine

The rules and bookkeeping of a racing game's vehicle audio engine, written in
Verus and proved against their contracts.

`src/` is the verified library:

- `wav` — reading and writing mono PCM16 44.1 kHz WAVE files (a written file
  reads back as the samples it was written from).
- `digest`, `text` — SHA-256 hex digests (through the `sha2` crate) and small
  string helpers.
- `bank`, `grand_prix_bank`, `grand_prix_manifest` — the rules of the two
  sample banks: reading the bank manifest (its JSON parsed through
  `serde_json`), bank keys, retired keys, playback metadata, asset checks,
  engine band layout, and the ordered rules of the Grand Prix bank manifest.
- `grand_prix_schedule` — the event scheduler of the Grand Prix sampler
  (edges, retrigger windows, variant selection, the bounded queue).
- `dsp_contract`, `dsp_runtime` — the ordered event transport to the native
  DSP and the gates applied to a loaded DSP module.
- `commands` — active voices, stop lists, the one-shot journal and one-shot
  identifiers of the command adapter.
- `mixer`, `adsr`, `state` — the one-shot voice table, one-shot variant
  selection and stepping, gear shift triggers, the envelope's stage machine, trigger and surface keys.
- `config`, `config_keys`, `powertrain` — configuration structure: hot reload
  settings, the structure of a configuration text (unknown-key warnings,
  schema version), the snapshot store, and the
  integer shape rules of the powertrain section.

`app/` holds what stays outside the proofs and calls the library for its
decisions: loading the two sample banks and the DSP module from disk, the
mixer configuration's typed and real-valued settings, the command adapter's
gain and pitch curves, the envelope's levels, the DSP filters and the
powertrain profile's range checks. The sample renderers, the C interface and
the command-line tools are not part of this crate.

`tests/` exercises the library on concrete values.
