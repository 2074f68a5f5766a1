# skywatch

Listens to 1090 MHz with a software-defined radio and prints the callsigns that
aircraft broadcast in Mode S extended squitter (ADS-B) identification messages.

- `src/` is the verified library (Verus):
  - `mode_s`: frame detection in magnitude samples (`proccess_samples`), with the
    search and the decoding stated over `frame_starts` and `decodes_frame`;
    `mode_s::format`: type code, callsign and the choice of callsigns to report;
    `mode_s::laws`: what holds of detection on every input (a transmitted frame is
    read back; found frames hold preambles and do not overlap; every preamble is covered;
    a quiet prefix changes nothing; a callsign is read back from its six-bit codes).
  - `sdr`: radio directions and errors, the choice of a back end by name, the
    device prompt and the reading of the chosen device.
- `app/` is the program: the radio back ends (SoapySDR and a stand-in), the terminal
  and the receive loop. Magnitudes reach the library as their IEEE-754 bit patterns,
  which `mode_s::sample` compares as the floating-point values they encode.
